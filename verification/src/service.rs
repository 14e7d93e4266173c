//! The book service: the single owner of one order book.
//!
//! A service is made empty and handed to whoever serves the market. Every
//! operation that changes the book takes the service by `&mut`, so the
//! borrow rules admit one such operation at a time, and none while a
//! snapshot is being taken: each operation is seen as a whole or not at
//! all, and finds the book as the last one left it. None of them waits on
//! anything. Callers on several threads keep the service behind one mutex
//! and hold it for the length of a call.

use vstd::prelude::*;
use crate::book::{BookSnapshot, BookView, InvalidOrder, OrderBook, Request};
use crate::matching::{all_sound, cross, crossed, trade_views, Trade};
use crate::order::{Order, OrderView, PredicateAddress, Side};

verus! {

/// The owner of one order book.
pub struct BookService {
    book: OrderBook,
}

impl View for BookService {
    type V = BookView;

    closed spec fn view(&self) -> BookView {
        self.book@
    }
}

/// The order that a caller's fields make.
pub open spec fn submitted(price: i64, quantity: i64, addresses: Seq<PredicateAddress>) -> OrderView {
    OrderView { price: price as int, quantity: quantity as int, addresses }
}

impl BookService {
    /// A service over an empty book.
    pub fn new() -> (service: Self)
        ensures
            service@ == BookView::empty(),
            service@.well_formed(),
    {
        BookService { book: OrderBook::new() }
    }

    /// Submits a bid. It is taken exactly when its quantity is positive,
    /// and then rests behind every bid at its price or higher. A bid that
    /// is turned away leaves the book as it was.
    pub fn add_bid(&mut self, price: i64, quantity: i64, addresses: Vec<PredicateAddress>) -> (taken:
        Result<(), InvalidOrder>)
        ensures
            taken is Ok <==> quantity > 0,
            final(self)@ == old(self)@.step(Request::AddBid(submitted(price, quantity, addresses@))),
            final(self)@.well_formed(),
    {
        self.book.insert_bid(Order { price, quantity, addresses })
    }

    /// Submits an ask. It is taken exactly when its quantity is positive,
    /// and then rests behind every ask at its price or lower. An ask that
    /// is turned away leaves the book as it was.
    pub fn add_ask(&mut self, price: i64, quantity: i64, addresses: Vec<PredicateAddress>) -> (taken:
        Result<(), InvalidOrder>)
        ensures
            taken is Ok <==> quantity > 0,
            final(self)@ == old(self)@.step(Request::AddAsk(submitted(price, quantity, addresses@))),
            final(self)@.well_formed(),
    {
        self.book.insert_ask(Order { price, quantity, addresses })
    }

    /// Withdraws every resting order on `side` at exactly `price`. This
    /// always succeeds; where no order rests at that price it changes
    /// nothing.
    pub fn cancel(&mut self, side: Side, price: i64)
        ensures
            final(self)@ == old(self)@.step(Request::Cancel(side, price as int)),
            final(self)@.well_formed(),
    {
        self.book.remove_by_price(side, price);
    }

    /// A copy of the book as it stands: both sides, best first.
    pub fn get_snapshot(&self) -> (copy: BookSnapshot)
        ensures
            copy@ == self@,
            self@.well_formed(),
    {
        self.book.snapshot()
    }

    /// Crosses the book and hands back the trades, in the order they were
    /// made. The book keeps what is left of both sides. Whether the trades
    /// settle is the caller's affair.
    pub fn run_match(&mut self) -> (trades: Vec<Trade>)
        ensures
            trade_views(trades@) == cross(old(self)@.bids, old(self)@.asks).trades,
            final(self)@ == old(self)@.step(Request::RunMatch),
            final(self)@.well_formed(),
            !crossed(final(self)@.bids, final(self)@.asks),
            all_sound(trade_views(trades@)),
    {
        self.book.run_match()
    }
}

} // verus!
