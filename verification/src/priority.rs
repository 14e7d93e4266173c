//! Price-time priority: the order in which resting orders stand on one side
//! of the book, and how a new order finds its place among them.
//!
//! Bids stand from the highest price down, asks from the lowest price up.
//! Among equal prices the earlier order stands first.

use vstd::prelude::*;
use crate::order::{Order, OrderView, Side};

verus! {

/// The values of a run of orders, in the same sequence.
pub open spec fn views(orders: Seq<Order>) -> Seq<OrderView> {
    orders.map_values(|o: Order| o@)
}

/// Whether price `p` serves `side` at least as well as price `q`: a bid
/// that is no lower, an ask that is no higher.
pub open spec fn at_least_as_good(side: Side, p: int, q: int) -> bool {
    match side {
        Side::Bid => p >= q,
        Side::Ask => p <= q,
    }
}

/// Orders stand in priority when none is followed by a better price: bids
/// never rise, asks never fall.
pub open spec fn in_priority(side: Side, s: Seq<OrderView>) -> bool {
    forall|i: int, j: int| 0 <= i <= j < s.len() ==> at_least_as_good(side, s[i].price, s[j].price)
}

/// Every order still has open quantity.
pub open spec fn all_valid(s: Seq<OrderView>) -> bool {
    forall|i: int| 0 <= i < s.len() ==> (#[trigger] s[i]).valid()
}

/// The index that an arriving order at `price` takes: just behind the
/// leading orders whose price is at least as good, so behind its equals.
pub open spec fn slot(side: Side, s: Seq<OrderView>, price: int) -> int
    decreases s.len(),
{
    if s.len() == 0 || !at_least_as_good(side, s[0].price, price) {
        0
    } else {
        1 + slot(side, s.drop_first(), price)
    }
}

/// The side after `order` has arrived: everything that stood there, with
/// the new order in its slot.
pub open spec fn place(side: Side, s: Seq<OrderView>, order: OrderView) -> Seq<OrderView> {
    s.insert(slot(side, s, order.price), order)
}

/// The orders of `s` as they stand after arriving one by one, first to
/// last: sorted by price, earlier arrivals before later ones at one price.
pub open spec fn arrange(side: Side, s: Seq<OrderView>) -> Seq<OrderView>
    decreases s.len(),
{
    if s.len() == 0 {
        s
    } else {
        place(side, arrange(side, s.drop_last()), s.last())
    }
}

/// A slot lies within the side, with only orders at least as good before
/// it and, if any order stands at it, one that is strictly worse.
pub proof fn lemma_slot_bounds(side: Side, s: Seq<OrderView>, price: int)
    ensures
        0 <= slot(side, s, price) <= s.len(),
        forall|i: int|
            0 <= i < slot(side, s, price) ==> at_least_as_good(side, (#[trigger] s[i]).price, price),
        slot(side, s, price) < s.len() ==> !at_least_as_good(
            side,
            s[slot(side, s, price)].price,
            price,
        ),
    decreases s.len(),
{
    if s.len() == 0 || !at_least_as_good(side, s[0].price, price) {
    } else {
        let rest = s.drop_first();
        lemma_slot_bounds(side, rest, price);
        assert forall|i: int| 0 <= i < slot(side, s, price) implies at_least_as_good(
            side,
            (#[trigger] s[i]).price,
            price,
        ) by {
            if i > 0 {
                assert(s[i] == rest[i - 1]);
            }
        }
    }
}

/// The slot is the only index with nothing but orders at least as good
/// before it and a strictly worse order, or the end, at it.
pub proof fn lemma_slot_unique(side: Side, s: Seq<OrderView>, price: int, k: int)
    requires
        0 <= k <= s.len(),
        forall|i: int| 0 <= i < k ==> at_least_as_good(side, (#[trigger] s[i]).price, price),
        k < s.len() ==> !at_least_as_good(side, s[k].price, price),
    ensures
        slot(side, s, price) == k,
    decreases s.len(),
{
    if k > 0 {
        let rest = s.drop_first();
        assert forall|i: int| 0 <= i < k - 1 implies at_least_as_good(
            side,
            (#[trigger] rest[i]).price,
            price,
        ) by {
            assert(rest[i] == s[i + 1]);
        }
        lemma_slot_unique(side, rest, price, k - 1);
    }
}

/// Placing an order keeps a side in priority.
pub proof fn lemma_place_in_priority(side: Side, s: Seq<OrderView>, order: OrderView)
    requires
        in_priority(side, s),
    ensures
        in_priority(side, place(side, s, order)),
{
    let k = slot(side, s, order.price);
    let t = place(side, s, order);
    lemma_slot_bounds(side, s, order.price);
    assert forall|i: int, j: int| 0 <= i <= j < t.len() implies at_least_as_good(
        side,
        t[i].price,
        t[j].price,
    ) by {
        if i == k && j > k {
            assert(at_least_as_good(side, s[k].price, s[j - 1].price));
        }
    }
}

/// Placing a valid order among valid orders leaves all of them valid.
pub proof fn lemma_place_all_valid(side: Side, s: Seq<OrderView>, order: OrderView)
    requires
        all_valid(s),
        order.valid(),
    ensures
        all_valid(place(side, s, order)),
{
    let k = slot(side, s, order.price);
    let t = place(side, s, order);
    lemma_slot_bounds(side, s, order.price);
    assert forall|i: int| 0 <= i < t.len() implies (#[trigger] t[i]).valid() by {
        if i < k {
            assert(t[i] == s[i]);
        } else if i > k {
            assert(t[i] == s[i - 1]);
        }
    }
}

/// Arranging puts every order somewhere and leaves the side in priority.
pub proof fn lemma_arrange_in_priority(side: Side, s: Seq<OrderView>)
    ensures
        arrange(side, s).len() == s.len(),
        in_priority(side, arrange(side, s)),
    decreases s.len(),
{
    if s.len() > 0 {
        let before = arrange(side, s.drop_last());
        lemma_arrange_in_priority(side, s.drop_last());
        lemma_slot_bounds(side, before, s.last().price);
        lemma_place_in_priority(side, before, s.last());
    }
}

/// Arranging valid orders leaves all of them valid.
pub proof fn lemma_arrange_all_valid(side: Side, s: Seq<OrderView>)
    requires
        all_valid(s),
    ensures
        all_valid(arrange(side, s)),
    decreases s.len(),
{
    if s.len() > 0 {
        assert(all_valid(s.drop_last())) by {
            assert forall|i: int| 0 <= i < s.len() - 1 implies (#[trigger] s.drop_last()[i]).valid() by {
                assert(s.drop_last()[i] == s[i]);
            }
        }
        lemma_arrange_all_valid(side, s.drop_last());
        lemma_place_all_valid(side, arrange(side, s.drop_last()), s.last());
    }
}

/// Orders that already stand in priority are left exactly as they are.
pub proof fn lemma_arrange_fixes_priority(side: Side, s: Seq<OrderView>)
    requires
        in_priority(side, s),
    ensures
        arrange(side, s) == s,
    decreases s.len(),
{
    if s.len() > 0 {
        let head = s.drop_last();
        assert(in_priority(side, head)) by {
            assert forall|i: int, j: int| 0 <= i <= j < head.len() implies at_least_as_good(
                side,
                head[i].price,
                head[j].price,
            ) by {
                assert(head[i] == s[i] && head[j] == s[j]);
            }
        }
        lemma_arrange_fixes_priority(side, head);
        assert forall|i: int| 0 <= i < head.len() implies at_least_as_good(
            side,
            (#[trigger] head[i]).price,
            s.last().price,
        ) by {
            assert(head[i] == s[i]);
        }
        lemma_slot_unique(side, head, s.last().price, head.len() as int);
        assert(head.insert(head.len() as int, s.last()) =~= s);
    }
}

/// Taking an order into a side in priority is the same as appending it
/// and arranging the side anew.
pub proof fn lemma_place_is_append_and_arrange(side: Side, s: Seq<OrderView>, order: OrderView)
    requires
        in_priority(side, s),
    ensures
        place(side, s, order) == arrange(side, s.push(order)),
{
    lemma_arrange_fixes_priority(side, s);
    assert(s.push(order).drop_last() =~= s);
}

/// Orders at exactly `price`.
pub open spec fn at_price(price: int) -> spec_fn(OrderView) -> bool {
    |o: OrderView| o.price == price
}

/// Placing an order adds it behind the orders of its own price and leaves
/// the orders of every other price as they stood.
pub proof fn lemma_place_keeps_each_price(
    side: Side,
    s: Seq<OrderView>,
    order: OrderView,
    price: int,
)
    requires
        in_priority(side, s),
    ensures
        place(side, s, order).filter(at_price(price)) == if order.price == price {
            s.filter(at_price(price)).push(order)
        } else {
            s.filter(at_price(price))
        },
{
    let k = slot(side, s, order.price);
    let pred = at_price(price);
    lemma_slot_bounds(side, s, order.price);
    let front = s.subrange(0, k);
    let back = s.subrange(k, s.len() as int);
    assert(s =~= front + back);
    assert(place(side, s, order) =~= front.push(order) + back);
    Seq::filter_distributes_over_add(front, back, pred);
    Seq::filter_distributes_over_add(front.push(order), back, pred);
    front.lemma_filter_push(order, pred);
    if order.price == price {
        assert forall|i: int| 0 <= i < back.len() implies !pred(#[trigger] back[i]) by {
            assert(at_least_as_good(side, s[k].price, s[k + i].price));
        }
        back.lemma_all_neg_filter_empty(pred);
        assert(front.filter(pred).push(order) + back.filter(pred) =~= (front.filter(pred)
            + back.filter(pred)).push(order));
    }
}

/// Arranging is stable: at every price, the orders come out in the
/// sequence in which they went in.
pub proof fn lemma_arrange_keeps_each_price(side: Side, s: Seq<OrderView>, price: int)
    ensures
        arrange(side, s).filter(at_price(price)) == s.filter(at_price(price)),
    decreases s.len(),
{
    reveal(Seq::filter);
    if s.len() > 0 {
        let before = arrange(side, s.drop_last());
        lemma_arrange_keeps_each_price(side, s.drop_last(), price);
        lemma_arrange_in_priority(side, s.drop_last());
        lemma_place_keeps_each_price(side, before, s.last(), price);
    }
}

/// Taking the values commutes with inserting an order.
pub proof fn lemma_views_insert(orders: Seq<Order>, k: int, order: Order)
    requires
        0 <= k <= orders.len(),
    ensures
        views(orders.insert(k, order)) == views(orders).insert(k, order@),
{
    assert(views(orders.insert(k, order)) =~= views(orders).insert(k, order@));
}

/// Whether every order of `orders` has open quantity.
pub fn all_open(orders: &Vec<Order>) -> (yes: bool)
    ensures
        yes == all_valid(views(orders@)),
{
    let mut i: usize = 0;
    while i < orders.len()
        invariant
            i <= orders.len(),
            forall|j: int| 0 <= j < i ==> (#[trigger] views(orders@)[j]).valid(),
        decreases orders.len() - i,
    {
        if !orders[i].is_valid() {
            assert(!views(orders@)[i as int].valid());
            return false;
        }
        i += 1;
    }
    true
}

/// Whether price `p` serves `side` at least as well as price `q`.
fn serves_at_least_as_well(side: Side, p: i64, q: i64) -> (yes: bool)
    ensures
        yes == at_least_as_good(side, p as int, q as int),
{
    match side {
        Side::Bid => p >= q,
        Side::Ask => p <= q,
    }
}

/// Puts `order` into a side that stands in priority, behind every order
/// whose price is at least as good.
pub(crate) fn insert_in_priority(side: Side, orders: &mut Vec<Order>, order: Order)
    requires
        in_priority(side, views(old(orders)@)),
    ensures
        views(final(orders)@) == place(side, views(old(orders)@), order@),
{
    let mut k: usize = orders.len();
    while k > 0 && !serves_at_least_as_well(side, orders[k - 1].price, order.price)
        invariant
            k <= orders.len(),
            forall|i: int|
                k <= i < orders.len() ==> !at_least_as_good(
                    side,
                    (#[trigger] views(orders@)[i]).price,
                    order@.price,
                ),
        decreases k,
    {
        k -= 1;
    }
    proof {
        let s = views(orders@);
        assert forall|i: int| 0 <= i < k implies at_least_as_good(
            side,
            (#[trigger] s[i]).price,
            order@.price,
        ) by {
            assert(at_least_as_good(side, s[i].price, s[k - 1].price));
        }
        lemma_slot_unique(side, s, order@.price, k as int);
        lemma_views_insert(orders@, k as int, order);
    }
    orders.insert(k, order);
}

/// Sorts orders into priority, keeping arrival order among equal prices.
pub(crate) fn sort_in_priority(side: Side, orders: Vec<Order>) -> (sorted: Vec<Order>)
    ensures
        views(sorted@) == arrange(side, views(orders@)),
{
    let ghost arrived = orders@;
    let mut sorted: Vec<Order> = Vec::new();
    for order in it: orders
        invariant
            it.seq() == arrived,
            views(sorted@) == arrange(side, views(arrived.take(it.index() as int))),
    {
        proof {
            let seen = arrived.take(it.index() + 1);
            assert(views(seen).drop_last() =~= views(arrived.take(it.index() as int)));
            lemma_arrange_in_priority(side, views(arrived.take(it.index() as int)));
        }
        insert_in_priority(side, &mut sorted, order);
    }
    proof {
        assert(arrived.take(arrived.len() as int) =~= arrived);
    }
    sorted
}

} // verus!
