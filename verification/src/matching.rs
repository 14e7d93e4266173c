//! The crossing engine: price-priority matching of bids against asks.
//!
//! The engine holds no state. It takes the two sides, puts each in
//! priority, and crosses the best bid with the best ask for as long as the
//! bid covers the ask. Each cross fills the smaller of the two open
//! quantities; an order that is filled leaves, one that is not stays at the
//! front with what remains. Each order is recorded at its own price: the
//! engine computes no single trade price.

use vstd::prelude::*;
use crate::order::{Order, OrderView, Side};
use crate::priority::{
    all_valid, arrange, at_least_as_good, in_priority, lemma_arrange_all_valid,
    lemma_arrange_in_priority, sort_in_priority, views,
};

verus! {

/// One crossing event: the bid's record and the ask's record, each with
/// the order's own price and settlement references and the matched quantity.
#[derive(Debug, PartialEq, Eq)]
pub struct Trade {
    pub bid_remainder: Order,
    pub ask_remainder: Order,
}

/// The mathematical value of a [`Trade`].
pub struct TradeView {
    pub bid_remainder: OrderView,
    pub ask_remainder: OrderView,
}

impl View for Trade {
    type V = TradeView;

    open spec fn view(&self) -> TradeView {
        TradeView { bid_remainder: self.bid_remainder@, ask_remainder: self.ask_remainder@ }
    }
}

impl Clone for Trade {
    fn clone(&self) -> (copy: Self)
        ensures
            copy@ == self@,
    {
        Trade {
            bid_remainder: self.bid_remainder.clone(),
            ask_remainder: self.ask_remainder.clone(),
        }
    }
}

/// What a run of the engine yields: the trades in the order they were
/// made, and what is left of each side.
#[derive(Debug, PartialEq, Eq)]
pub struct MatchOutcome {
    pub trades: Vec<Trade>,
    pub bids: Vec<Order>,
    pub asks: Vec<Order>,
}

/// The mathematical value of a [`MatchOutcome`].
pub struct MatchView {
    pub trades: Seq<TradeView>,
    pub bids: Seq<OrderView>,
    pub asks: Seq<OrderView>,
}

/// The values of a run of trades, in the same sequence.
pub open spec fn trade_views(trades: Seq<Trade>) -> Seq<TradeView> {
    trades.map_values(|t: Trade| t@)
}

impl View for MatchOutcome {
    type V = MatchView;

    open spec fn view(&self) -> MatchView {
        MatchView {
            trades: trade_views(self.trades@),
            bids: views(self.bids@),
            asks: views(self.asks@),
        }
    }
}

/// The quantity that changes hands when `bid` meets `ask`: the smaller of
/// the two open quantities.
pub open spec fn matched_quantity(bid: OrderView, ask: OrderView) -> int {
    if bid.quantity <= ask.quantity {
        bid.quantity
    } else {
        ask.quantity
    }
}

/// The order with `quantity` in place of its own.
pub open spec fn with_quantity(order: OrderView, quantity: int) -> OrderView {
    OrderView { price: order.price, quantity, addresses: order.addresses }
}

/// A side after `quantity` of its first order has been filled: the order
/// leaves if nothing of it is left, and else stays first with the rest.
pub open spec fn after_fill(s: Seq<OrderView>, quantity: int) -> Seq<OrderView> {
    if s[0].quantity == quantity {
        s.drop_first()
    } else {
        s.update(0, with_quantity(s[0], s[0].quantity - quantity))
    }
}

/// Whether the first bid covers the first ask.
pub open spec fn crossed(bids: Seq<OrderView>, asks: Seq<OrderView>) -> bool {
    bids.len() > 0 && asks.len() > 0 && bids[0].price >= asks[0].price
}

/// The record of the first bid meeting the first ask.
pub open spec fn first_trade(bids: Seq<OrderView>, asks: Seq<OrderView>) -> TradeView {
    let quantity = matched_quantity(bids[0], asks[0]);
    TradeView {
        bid_remainder: with_quantity(bids[0], quantity),
        ask_remainder: with_quantity(asks[0], quantity),
    }
}

/// Crossing two sides that stand in priority: while the first bid covers
/// the first ask, they trade the smaller open quantity and the sides go on
/// from what is left.
pub open spec fn cross(bids: Seq<OrderView>, asks: Seq<OrderView>) -> MatchView
    decreases bids.len() + asks.len(),
{
    if !crossed(bids, asks) {
        MatchView { trades: Seq::empty(), bids, asks }
    } else {
        let quantity = matched_quantity(bids[0], asks[0]);
        let rest = cross(after_fill(bids, quantity), after_fill(asks, quantity));
        MatchView {
            trades: seq![first_trade(bids, asks)] + rest.trades,
            bids: rest.bids,
            asks: rest.asks,
        }
    }
}

/// What the engine yields for two sides in any order: each side is put in
/// priority, then the two are crossed.
pub open spec fn match_result(bids: Seq<OrderView>, asks: Seq<OrderView>) -> MatchView {
    cross(arrange(Side::Bid, bids), arrange(Side::Ask, asks))
}

/// A trade is sound when the bid covers the ask and both records carry
/// the same positive quantity.
pub open spec fn sound_trade(trade: TradeView) -> bool {
    &&& trade.bid_remainder.price >= trade.ask_remainder.price
    &&& trade.bid_remainder.quantity == trade.ask_remainder.quantity
    &&& trade.bid_remainder.quantity > 0
}

/// Every trade of the run is sound.
pub open spec fn all_sound(trades: Seq<TradeView>) -> bool {
    forall|i: int| 0 <= i < trades.len() ==> sound_trade(#[trigger] trades[i])
}

/// The open quantity of a side: the sum over its orders.
pub open spec fn open_quantity(s: Seq<OrderView>) -> int
    decreases s.len(),
{
    if s.len() == 0 {
        0
    } else {
        s[0].quantity + open_quantity(s.drop_first())
    }
}

/// The quantity that changed hands over a run of trades.
pub open spec fn traded_quantity(trades: Seq<TradeView>) -> int
    decreases trades.len(),
{
    if trades.len() == 0 {
        0
    } else {
        trades[0].bid_remainder.quantity + traded_quantity(trades.drop_first())
    }
}

/// Filling part of the first order changes no price and no position, so
/// the side stays in priority and its orders stay valid; its open quantity
/// falls by what was filled.
pub proof fn lemma_after_fill(side: Side, s: Seq<OrderView>, quantity: int)
    requires
        s.len() > 0,
        0 < quantity <= s[0].quantity,
    ensures
        in_priority(side, s) ==> in_priority(side, after_fill(s, quantity)),
        all_valid(s) ==> all_valid(after_fill(s, quantity)),
        open_quantity(after_fill(s, quantity)) == open_quantity(s) - quantity,
{
    let t = after_fill(s, quantity);
    if in_priority(side, s) {
        assert forall|i: int, j: int| 0 <= i <= j < t.len() implies at_least_as_good(
            side,
            t[i].price,
            t[j].price,
        ) by {
            if s[0].quantity == quantity {
                assert(t[i] == s[i + 1] && t[j] == s[j + 1]);
            } else {
                assert(t[i].price == s[i].price && t[j].price == s[j].price);
            }
        }
    }
    if all_valid(s) {
        assert forall|i: int| 0 <= i < t.len() implies (#[trigger] t[i]).valid() by {
            if s[0].quantity == quantity {
                assert(t[i] == s[i + 1]);
            } else if i > 0 {
                assert(t[i] == s[i]);
            }
        }
    }
    if s[0].quantity != quantity {
        assert(t.drop_first() =~= s.drop_first());
    }
}

/// Crossing leaves both sides in priority.
pub proof fn lemma_cross_in_priority(bids: Seq<OrderView>, asks: Seq<OrderView>)
    requires
        all_valid(bids),
        all_valid(asks),
        in_priority(Side::Bid, bids),
        in_priority(Side::Ask, asks),
    ensures
        in_priority(Side::Bid, cross(bids, asks).bids),
        in_priority(Side::Ask, cross(bids, asks).asks),
    decreases bids.len() + asks.len(),
{
    if crossed(bids, asks) {
        let quantity = matched_quantity(bids[0], asks[0]);
        lemma_after_fill(Side::Bid, bids, quantity);
        lemma_after_fill(Side::Ask, asks, quantity);
        lemma_cross_in_priority(after_fill(bids, quantity), after_fill(asks, quantity));
    }
}

/// Crossing leaves no order without open quantity, on either side.
pub proof fn lemma_cross_all_valid(bids: Seq<OrderView>, asks: Seq<OrderView>)
    requires
        all_valid(bids),
        all_valid(asks),
    ensures
        all_valid(cross(bids, asks).bids),
        all_valid(cross(bids, asks).asks),
    decreases bids.len() + asks.len(),
{
    if crossed(bids, asks) {
        let quantity = matched_quantity(bids[0], asks[0]);
        lemma_after_fill(Side::Bid, bids, quantity);
        lemma_after_fill(Side::Ask, asks, quantity);
        lemma_cross_all_valid(after_fill(bids, quantity), after_fill(asks, quantity));
    }
}

/// Crossing runs until no cross is left: afterwards a side is empty, or
/// the best bid is below the best ask.
pub proof fn lemma_cross_leaves_no_cross(bids: Seq<OrderView>, asks: Seq<OrderView>)
    ensures
        !crossed(cross(bids, asks).bids, cross(bids, asks).asks),
    decreases bids.len() + asks.len(),
{
    if crossed(bids, asks) {
        let quantity = matched_quantity(bids[0], asks[0]);
        lemma_cross_leaves_no_cross(after_fill(bids, quantity), after_fill(asks, quantity));
    }
}

/// Crossing sides that do not cross makes no trade and changes nothing.
pub proof fn lemma_cross_without_cross(bids: Seq<OrderView>, asks: Seq<OrderView>)
    requires
        !crossed(bids, asks),
    ensures
        cross(bids, asks).trades == Seq::<TradeView>::empty(),
        cross(bids, asks).bids == bids,
        cross(bids, asks).asks == asks,
{
}

/// Every trade that crossing makes is sound.
pub proof fn lemma_cross_trades_sound(bids: Seq<OrderView>, asks: Seq<OrderView>)
    requires
        all_valid(bids),
        all_valid(asks),
    ensures
        all_sound(cross(bids, asks).trades),
    decreases bids.len() + asks.len(),
{
    if crossed(bids, asks) {
        let quantity = matched_quantity(bids[0], asks[0]);
        lemma_after_fill(Side::Bid, bids, quantity);
        lemma_after_fill(Side::Ask, asks, quantity);
        let rest = cross(after_fill(bids, quantity), after_fill(asks, quantity));
        lemma_cross_trades_sound(after_fill(bids, quantity), after_fill(asks, quantity));
        let trades = cross(bids, asks).trades;
        assert forall|i: int| 0 <= i < trades.len() implies sound_trade(#[trigger] trades[i]) by {
            if i > 0 {
                assert(trades[i] == rest.trades[i - 1]);
            }
        }
    }
}

/// Crossing conserves quantity: what a side had open is what it has left
/// plus what changed hands, and both sides gave up the same.
pub proof fn lemma_cross_conserves_quantity(bids: Seq<OrderView>, asks: Seq<OrderView>)
    requires
        all_valid(bids),
        all_valid(asks),
    ensures
        open_quantity(bids) == open_quantity(cross(bids, asks).bids) + traded_quantity(
            cross(bids, asks).trades,
        ),
        open_quantity(asks) == open_quantity(cross(bids, asks).asks) + traded_quantity(
            cross(bids, asks).trades,
        ),
    decreases bids.len() + asks.len(),
{
    if crossed(bids, asks) {
        let quantity = matched_quantity(bids[0], asks[0]);
        lemma_after_fill(Side::Bid, bids, quantity);
        lemma_after_fill(Side::Ask, asks, quantity);
        let rest = cross(after_fill(bids, quantity), after_fill(asks, quantity));
        lemma_cross_conserves_quantity(after_fill(bids, quantity), after_fill(asks, quantity));
        assert(cross(bids, asks).trades.drop_first() =~= rest.trades);
    }
}

/// Whether `rest` is what is left of side `s` once it has been filled from
/// the front: the last orders of `s` in their sequence, the first of them
/// with part or all of its quantity, the others untouched.
pub open spec fn left_of(rest: Seq<OrderView>, s: Seq<OrderView>) -> bool {
    let gone = s.len() - rest.len();
    &&& gone >= 0
    &&& rest.len() > 0 ==> {
        &&& rest[0].price == s[gone].price
        &&& rest[0].addresses == s[gone].addresses
        &&& 0 < rest[0].quantity <= s[gone].quantity
    }
    &&& forall|i: int| 1 <= i < rest.len() ==> #[trigger] rest[i] == s[gone + i]
}

/// What is left of a side after one fill is left of the side before it.
proof fn lemma_left_of_after_fill(rest: Seq<OrderView>, s: Seq<OrderView>, quantity: int)
    requires
        s.len() > 0,
        0 < quantity <= s[0].quantity,
        left_of(rest, after_fill(s, quantity)),
    ensures
        left_of(rest, s),
{
    let t = after_fill(s, quantity);
    let gone = s.len() - rest.len();
    if s[0].quantity == quantity {
        if rest.len() > 0 {
            assert(t[t.len() - rest.len()] == s[gone]);
        }
        assert forall|i: int| 1 <= i < rest.len() implies #[trigger] rest[i] == s[gone + i] by {
            assert(t[t.len() - rest.len() + i] == s[gone + i]);
        }
    } else {
        assert forall|i: int| 1 <= i < rest.len() implies #[trigger] rest[i] == s[gone + i] by {
            assert(t[gone + i] == s[gone + i]);
        }
    }
}

/// Crossing fills each side from the front: no order trades before every
/// order ahead of it is filled, and what is left keeps its sequence.
pub proof fn lemma_cross_fills_from_the_front(bids: Seq<OrderView>, asks: Seq<OrderView>)
    requires
        all_valid(bids),
        all_valid(asks),
    ensures
        left_of(cross(bids, asks).bids, bids),
        left_of(cross(bids, asks).asks, asks),
    decreases bids.len() + asks.len(),
{
    if crossed(bids, asks) {
        let quantity = matched_quantity(bids[0], asks[0]);
        lemma_after_fill(Side::Bid, bids, quantity);
        lemma_after_fill(Side::Ask, asks, quantity);
        lemma_cross_fills_from_the_front(after_fill(bids, quantity), after_fill(asks, quantity));
        let rest = cross(after_fill(bids, quantity), after_fill(asks, quantity));
        lemma_left_of_after_fill(rest.bids, bids, quantity);
        lemma_left_of_after_fill(rest.asks, asks, quantity);
    }
}

/// The record of `order` filled for `quantity`: its own price and
/// settlement references, and the matched quantity.
fn fill_record(order: &Order, quantity: i64) -> (record: Order)
    ensures
        record@ == with_quantity(order@, quantity as int),
{
    Order { price: order.price, quantity, addresses: order.addresses.clone() }
}

/// Fills `quantity` of the first order: a filled order leaves the side, a
/// partly filled one stays first with what remains.
fn fill_first(orders: &mut Vec<Order>, quantity: i64)
    requires
        old(orders).len() > 0,
        0 < quantity <= old(orders)[0].quantity,
    ensures
        views(final(orders)@) == after_fill(views(old(orders)@), quantity as int),
{
    if orders[0].quantity == quantity {
        let _ = orders.remove(0);
    } else {
        orders[0].quantity = orders[0].quantity - quantity;
        assert(views(orders@) =~= views(old(orders)@).update(
            0,
            with_quantity(old(orders)[0]@, old(orders)[0].quantity - quantity),
        ));
    }
}

/// Matches bids against asks by price priority.
///
/// Both sides are first put in priority (bids from the highest price down,
/// asks from the lowest up, earlier arrivals first at one price). Then the
/// best bid and the best ask trade for as long as the bid covers the ask.
/// The outcome holds the trades in the order they were made and what is
/// left of both sides, still in priority.
pub fn match_orders(bids: Vec<Order>, asks: Vec<Order>) -> (outcome: MatchOutcome)
    requires
        all_valid(views(bids@)),
        all_valid(views(asks@)),
    ensures
        outcome@ == match_result(views(bids@), views(asks@)),
        in_priority(Side::Bid, outcome@.bids),
        in_priority(Side::Ask, outcome@.asks),
        all_valid(outcome@.bids),
        all_valid(outcome@.asks),
        !crossed(outcome@.bids, outcome@.asks),
        all_sound(outcome@.trades),
{
    proof {
        let best_bids = arrange(Side::Bid, views(bids@));
        let best_asks = arrange(Side::Ask, views(asks@));
        lemma_arrange_all_valid(Side::Bid, views(bids@));
        lemma_arrange_all_valid(Side::Ask, views(asks@));
        lemma_arrange_in_priority(Side::Bid, views(bids@));
        lemma_arrange_in_priority(Side::Ask, views(asks@));
        lemma_cross_in_priority(best_bids, best_asks);
        lemma_cross_all_valid(best_bids, best_asks);
        lemma_cross_leaves_no_cross(best_bids, best_asks);
        lemma_cross_trades_sound(best_bids, best_asks);
    }
    let mut bids = sort_in_priority(Side::Bid, bids);
    let mut asks = sort_in_priority(Side::Ask, asks);
    let ghost best_bids = views(bids@);
    let ghost best_asks = views(asks@);
    let mut trades: Vec<Trade> = Vec::new();
    while bids.len() > 0 && asks.len() > 0 && bids[0].price >= asks[0].price
        invariant
            all_valid(views(bids@)),
            all_valid(views(asks@)),
            cross(best_bids, best_asks).trades == trade_views(trades@) + cross(
                views(bids@),
                views(asks@),
            ).trades,
            cross(best_bids, best_asks).bids == cross(views(bids@), views(asks@)).bids,
            cross(best_bids, best_asks).asks == cross(views(bids@), views(asks@)).asks,
        decreases bids.len() + asks.len(),
    {
        let quantity = if bids[0].quantity <= asks[0].quantity {
            bids[0].quantity
        } else {
            asks[0].quantity
        };
        let trade = Trade {
            bid_remainder: fill_record(&bids[0], quantity),
            ask_remainder: fill_record(&asks[0], quantity),
        };
        trades.push(trade);
        fill_first(&mut bids, quantity);
        fill_first(&mut asks, quantity);
    }
    MatchOutcome { trades, bids, asks }
}

} // verus!
