//! Orders and their sides: the values that the book holds and the engine
//! works on.

use vstd::prelude::*;

verus! {

/// Content address of a predicate or of a contract: a 32-byte hash.
#[derive(Clone, Copy, Debug, PartialEq, Eq)]
pub struct ContentAddress(pub [u8; 32]);

/// Address of a predicate: the contract it was deployed with, and the
/// predicate itself. The book carries it along and never looks inside.
#[derive(Clone, Copy, Debug, PartialEq, Eq)]
pub struct PredicateAddress {
    pub contract: ContentAddress,
    pub predicate: ContentAddress,
}

/// The side of the book an order rests on.
#[derive(Clone, Copy, Debug, PartialEq, Eq, Structural)]
pub enum Side {
    Bid,
    Ask,
}

/// One order: a limit price, the quantity still open, and the settlement
/// references that travel with it.
#[derive(Debug, PartialEq, Eq)]
pub struct Order {
    pub price: i64,
    pub quantity: i64,
    pub addresses: Vec<PredicateAddress>,
}

/// The mathematical value of an [`Order`].
pub struct OrderView {
    pub price: int,
    pub quantity: int,
    pub addresses: Seq<PredicateAddress>,
}

impl View for Order {
    type V = OrderView;

    open spec fn view(&self) -> OrderView {
        OrderView {
            price: self.price as int,
            quantity: self.quantity as int,
            addresses: self.addresses@,
        }
    }
}

impl OrderView {
    /// An order may rest in a book only while some quantity is still open.
    pub open spec fn valid(self) -> bool {
        self.quantity > 0
    }
}

impl Order {
    /// Whether the order could rest in a book: its open quantity is positive.
    pub fn is_valid(&self) -> (ok: bool)
        ensures
            ok == self@.valid(),
    {
        self.quantity > 0
    }
}

impl Clone for Order {
    fn clone(&self) -> (copy: Self)
        ensures
            copy@ == self@,
    {
        Order { price: self.price, quantity: self.quantity, addresses: self.addresses.clone() }
    }
}

} // verus!
