//! The order book: the resting bids and asks, each side in priority.
//!
//! A book starts empty and changes in three ways only: an order arrives, the
//! orders at one price are withdrawn, or the book is crossed. After each of
//! them bids never rise from front to back, asks never fall, and every
//! resting order has open quantity.

use vstd::prelude::*;
use crate::matching::{
    all_sound, cross, crossed, lemma_cross_all_valid, lemma_cross_in_priority,
    lemma_cross_leaves_no_cross, match_orders, trade_views, Trade,
};
use crate::order::{Order, OrderView, Side};
use crate::priority::{
    all_valid, at_least_as_good, in_priority, insert_in_priority, lemma_arrange_fixes_priority,
    lemma_place_all_valid, lemma_place_in_priority, place, views,
};

verus! {

/// The one way an order is turned away: it has no open quantity.
#[derive(Clone, Copy, Debug, PartialEq, Eq)]
pub struct InvalidOrder;

/// A copy of both sides of a book, for reading.
#[derive(Debug, PartialEq, Eq)]
pub struct BookSnapshot {
    pub bids: Vec<Order>,
    pub asks: Vec<Order>,
}

/// The resting orders of one market.
pub struct OrderBook {
    bids: Vec<Order>,
    asks: Vec<Order>,
}

/// The mathematical value of a book: its two sides, each best first.
pub struct BookView {
    pub bids: Seq<OrderView>,
    pub asks: Seq<OrderView>,
}

/// What can be asked of a book.
pub enum Request {
    /// Take this bid.
    AddBid(OrderView),
    /// Take this ask.
    AddAsk(OrderView),
    /// Withdraw the orders of this side at exactly this price.
    Cancel(Side, int),
    /// Cross the book.
    RunMatch,
}

impl View for BookSnapshot {
    type V = BookView;

    open spec fn view(&self) -> BookView {
        BookView { bids: views(self.bids@), asks: views(self.asks@) }
    }
}

/// Orders at any price but `price`.
pub open spec fn off_price(price: int) -> spec_fn(OrderView) -> bool {
    |o: OrderView| o.price != price
}

/// A side once every order at exactly `price` has been withdrawn; the
/// others keep their sequence.
pub open spec fn without_price(s: Seq<OrderView>, price: int) -> Seq<OrderView> {
    s.filter(off_price(price))
}

impl BookView {
    /// The book without any order.
    pub open spec fn empty() -> BookView {
        BookView { bids: Seq::empty(), asks: Seq::empty() }
    }

    /// One side of the book, best first.
    pub open spec fn side(self, side: Side) -> Seq<OrderView> {
        match side {
            Side::Bid => self.bids,
            Side::Ask => self.asks,
        }
    }

    /// Two sides make a book when each stands in priority (bids never
    /// rise, asks never fall) and every order has open quantity.
    pub open spec fn well_formed(self) -> bool {
        &&& in_priority(Side::Bid, self.bids)
        &&& in_priority(Side::Ask, self.asks)
        &&& all_valid(self.bids)
        &&& all_valid(self.asks)
    }

    /// The book after one request.
    ///
    /// An order with open quantity goes behind the orders of its side that
    /// are priced at least as well; one without is turned away and changes
    /// nothing. A cancel withdraws the orders of one side at one price.
    /// A match leaves what crossing leaves.
    pub open spec fn step(self, request: Request) -> BookView {
        match request {
            Request::AddBid(order) => if order.valid() {
                BookView { bids: place(Side::Bid, self.bids, order), asks: self.asks }
            } else {
                self
            },
            Request::AddAsk(order) => if order.valid() {
                BookView { bids: self.bids, asks: place(Side::Ask, self.asks, order) }
            } else {
                self
            },
            Request::Cancel(side, price) => match side {
                Side::Bid => BookView { bids: without_price(self.bids, price), asks: self.asks },
                Side::Ask => BookView { bids: self.bids, asks: without_price(self.asks, price) },
            },
            Request::RunMatch => BookView {
                bids: cross(self.bids, self.asks).bids,
                asks: cross(self.bids, self.asks).asks,
            },
        }
    }

    /// The book after a run of requests, first to last.
    pub open spec fn run(self, requests: Seq<Request>) -> BookView
        decreases requests.len(),
    {
        if requests.len() == 0 {
            self
        } else {
            self.run(requests.drop_last()).step(requests.last())
        }
    }
}

/// Withdrawing a price keeps a side in priority and its orders valid.
pub proof fn lemma_without_price_well_formed(side: Side, s: Seq<OrderView>, price: int)
    ensures
        in_priority(side, s) ==> in_priority(side, without_price(s, price)),
        all_valid(s) ==> all_valid(without_price(s, price)),
    decreases s.len(),
{
    reveal(Seq::filter);
    if s.len() > 0 {
        let head = s.drop_last();
        let kept = without_price(head, price);
        let t = without_price(s, price);
        lemma_without_price_well_formed(side, head, price);
        if in_priority(side, s) {
            assert forall|i: int, j: int| 0 <= i <= j < head.len() implies at_least_as_good(
                side,
                head[i].price,
                head[j].price,
            ) by {
                assert(head[i] == s[i] && head[j] == s[j]);
            }
            assert forall|i: int, j: int| 0 <= i <= j < t.len() implies at_least_as_good(
                side,
                t[i].price,
                t[j].price,
            ) by {
                if j < kept.len() {
                    assert(t[i] == kept[i] && t[j] == kept[j]);
                } else if i < kept.len() {
                    assert(t[i] == kept[i]);
                    head.lemma_filter_contains_rev(off_price(price), kept[i]);
                    let k = choose|k: int| 0 <= k < head.len() && head[k] == kept[i];
                    assert(head[k] == s[k]);
                    assert(at_least_as_good(side, s[k].price, s[s.len() - 1].price));
                }
            }
        }
        if all_valid(s) {
            assert forall|i: int| 0 <= i < head.len() implies (#[trigger] head[i]).valid() by {
                assert(head[i] == s[i]);
            }
            assert forall|i: int| 0 <= i < t.len() implies (#[trigger] t[i]).valid() by {
                if i < kept.len() {
                    assert(t[i] == kept[i]);
                } else {
                    assert(t[i] == s[s.len() - 1]);
                }
            }
        }
    }
}

/// Withdrawing at a price twice is the same as withdrawing at it once:
/// the second time finds nothing to withdraw.
pub proof fn lemma_without_price_idempotent(s: Seq<OrderView>, price: int)
    ensures
        without_price(without_price(s, price), price) == without_price(s, price),
    decreases s.len(),
{
    reveal(Seq::filter);
    if s.len() > 0 {
        let head = s.drop_last();
        lemma_without_price_idempotent(head, price);
        if s.last().price != price {
            without_price(head, price).lemma_filter_push(s.last(), off_price(price));
        }
    }
}

/// No request breaks a book: after it bids still never rise, asks still
/// never fall, and every resting order has open quantity.
pub proof fn lemma_step_keeps_well_formed(book: BookView, request: Request)
    requires
        book.well_formed(),
    ensures
        book.step(request).well_formed(),
{
    match request {
        Request::AddBid(order) => {
            if order.valid() {
                lemma_place_in_priority(Side::Bid, book.bids, order);
                lemma_place_all_valid(Side::Bid, book.bids, order);
            }
        },
        Request::AddAsk(order) => {
            if order.valid() {
                lemma_place_in_priority(Side::Ask, book.asks, order);
                lemma_place_all_valid(Side::Ask, book.asks, order);
            }
        },
        Request::Cancel(side, price) => {
            lemma_without_price_well_formed(side, book.side(side), price);
        },
        Request::RunMatch => {
            lemma_cross_in_priority(book.bids, book.asks);
            lemma_cross_all_valid(book.bids, book.asks);
        },
    }
}

/// Whatever requests a book has served since it was empty, and in
/// whatever sequence, its bids never rise, its asks never fall, and every
/// resting order has open quantity.
pub proof fn lemma_run_keeps_well_formed(requests: Seq<Request>)
    ensures
        BookView::empty().run(requests).well_formed(),
    decreases requests.len(),
{
    if requests.len() > 0 {
        lemma_run_keeps_well_formed(requests.drop_last());
        lemma_step_keeps_well_formed(
            BookView::empty().run(requests.drop_last()),
            requests.last(),
        );
    }
}

/// After a match every order that remains has open quantity, and the
/// best bid, if both sides have orders left, is below the best ask.
pub proof fn lemma_match_leaves_open_orders(book: BookView)
    requires
        book.well_formed(),
    ensures
        all_valid(book.step(Request::RunMatch).bids),
        all_valid(book.step(Request::RunMatch).asks),
        !crossed(book.step(Request::RunMatch).bids, book.step(Request::RunMatch).asks),
{
    lemma_cross_all_valid(book.bids, book.asks);
    lemma_cross_leaves_no_cross(book.bids, book.asks);
}

/// Cancelling twice in a row is cancelling once: the second cancel finds
/// nothing at the price and changes nothing.
pub proof fn lemma_cancel_twice_is_once(book: BookView, side: Side, price: int)
    ensures
        book.step(Request::Cancel(side, price)).step(Request::Cancel(side, price)) == book.step(
            Request::Cancel(side, price),
        ),
{
    lemma_without_price_idempotent(book.side(side), price);
}

/// Taking the values commutes with appending an order.
proof fn lemma_views_push(orders: Seq<Order>, order: Order)
    ensures
        views(orders.push(order)) == views(orders).push(order@),
{
    assert(views(orders.push(order)) =~= views(orders).push(order@));
}

/// The orders of `orders` whose price is not `price`, in their sequence.
fn withdraw(orders: Vec<Order>, price: i64) -> (kept: Vec<Order>)
    ensures
        views(kept@) == without_price(views(orders@), price as int),
{
    let ghost resting = orders@;
    let mut kept: Vec<Order> = Vec::new();
    proof {
        reveal(Seq::filter);
    }
    for order in it: orders
        invariant
            it.seq() == resting,
            views(kept@) == without_price(views(resting.take(it.index() as int)), price as int),
    {
        proof {
            let seen = resting.take(it.index() as int);
            assert(resting.take(it.index() + 1) =~= seen.push(order));
            lemma_views_push(seen, order);
            views(seen).lemma_filter_push(order@, off_price(price as int));
            lemma_views_push(kept@, order);
        }
        if order.price != price {
            kept.push(order);
        }
    }
    proof {
        assert(resting.take(resting.len() as int) =~= resting);
    }
    kept
}

/// A copy of `orders` with the same values.
fn copy_orders(orders: &Vec<Order>) -> (copy: Vec<Order>)
    ensures
        views(copy@) == views(orders@),
{
    orders.clone()
}

impl View for OrderBook {
    type V = BookView;

    closed spec fn view(&self) -> BookView {
        BookView { bids: views(self.bids@), asks: views(self.asks@) }
    }
}

impl OrderBook {
    #[verifier::type_invariant]
    spec fn holds(&self) -> bool {
        self@.well_formed()
    }

    /// An empty book.
    pub fn new() -> (book: Self)
        ensures
            book@ == BookView::empty(),
            book@.well_formed(),
    {
        let book = OrderBook { bids: Vec::new(), asks: Vec::new() };
        assert(book@.bids =~= Seq::<OrderView>::empty());
        assert(book@.asks =~= Seq::<OrderView>::empty());
        book
    }

    /// Takes a bid into the book, behind every bid at its price or higher.
    /// A bid without open quantity is turned away and the book stays as it
    /// was.
    pub fn insert_bid(&mut self, order: Order) -> (taken: Result<(), InvalidOrder>)
        ensures
            taken is Ok <==> order@.valid(),
            final(self)@ == old(self)@.step(Request::AddBid(order@)),
            final(self)@.well_formed(),
    {
        proof {
            use_type_invariant(&*self);
            lemma_step_keeps_well_formed(self@, Request::AddBid(order@));
        }
        if !order.is_valid() {
            return Err(InvalidOrder);
        }
        let mut bids: Vec<Order> = Vec::new();
        std::mem::swap(&mut bids, &mut self.bids);
        insert_in_priority(Side::Bid, &mut bids, order);
        self.bids = bids;
        Ok(())
    }

    /// Takes an ask into the book, behind every ask at its price or lower.
    /// An ask without open quantity is turned away and the book stays as it
    /// was.
    pub fn insert_ask(&mut self, order: Order) -> (taken: Result<(), InvalidOrder>)
        ensures
            taken is Ok <==> order@.valid(),
            final(self)@ == old(self)@.step(Request::AddAsk(order@)),
            final(self)@.well_formed(),
    {
        proof {
            use_type_invariant(&*self);
            lemma_step_keeps_well_formed(self@, Request::AddAsk(order@));
        }
        if !order.is_valid() {
            return Err(InvalidOrder);
        }
        let mut asks: Vec<Order> = Vec::new();
        std::mem::swap(&mut asks, &mut self.asks);
        insert_in_priority(Side::Ask, &mut asks, order);
        self.asks = asks;
        Ok(())
    }

    /// Withdraws every order on `side` whose price is exactly `price`.
    /// Where none rests at that price, nothing changes.
    pub fn remove_by_price(&mut self, side: Side, price: i64)
        ensures
            final(self)@ == old(self)@.step(Request::Cancel(side, price as int)),
            final(self)@.well_formed(),
    {
        proof {
            use_type_invariant(&*self);
            lemma_step_keeps_well_formed(self@, Request::Cancel(side, price as int));
        }
        let mut resting: Vec<Order> = Vec::new();
        match side {
            Side::Bid => {
                std::mem::swap(&mut resting, &mut self.bids);
                self.bids = withdraw(resting, price);
            },
            Side::Ask => {
                std::mem::swap(&mut resting, &mut self.asks);
                self.asks = withdraw(resting, price);
            },
        }
    }

    /// A copy of both sides as they stand, for reading.
    pub fn snapshot(&self) -> (copy: BookSnapshot)
        ensures
            copy@ == self@,
            self@.well_formed(),
    {
        proof {
            use_type_invariant(self);
        }
        BookSnapshot { bids: copy_orders(&self.bids), asks: copy_orders(&self.asks) }
    }

    /// Crosses the book: the best bid and the best ask trade for as long as
    /// the bid covers the ask. The book keeps what is left of both sides,
    /// and the trades come back in the order they were made.
    pub fn run_match(&mut self) -> (trades: Vec<Trade>)
        ensures
            trade_views(trades@) == cross(old(self)@.bids, old(self)@.asks).trades,
            final(self)@ == old(self)@.step(Request::RunMatch),
            final(self)@.well_formed(),
            !crossed(final(self)@.bids, final(self)@.asks),
            all_sound(trade_views(trades@)),
    {
        proof {
            use_type_invariant(&*self);
            lemma_arrange_fixes_priority(Side::Bid, self@.bids);
            lemma_arrange_fixes_priority(Side::Ask, self@.asks);
        }
        let mut bids: Vec<Order> = Vec::new();
        let mut asks: Vec<Order> = Vec::new();
        std::mem::swap(&mut bids, &mut self.bids);
        std::mem::swap(&mut asks, &mut self.asks);
        let outcome = match_orders(bids, asks);
        self.bids = outcome.bids;
        self.asks = outcome.asks;
        outcome.trades
    }
}

} // verus!
