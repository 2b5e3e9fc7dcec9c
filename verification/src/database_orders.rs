//! Orders as the fee correction reads them, and the rule by which an order is
//! looked up: in the table of regular orders first, then in that of
//! just-in-time orders.

use crate::byte_array::Address;
use vstd::prelude::*;

verus! {

/// Whether an order buys or sells a fixed amount.
#[derive(Clone, Copy, Debug, Eq, PartialEq, Structural)]
pub enum OrderKind {
    /// The order buys a fixed amount.
    Buy,
    /// The order sells a fixed amount.
    Sell,
}

impl Default for OrderKind {
    /// The kind that stands where none is given: `Buy`.
    fn default() -> (r: Self)
        ensures
            r == OrderKind::Buy,
    {
        OrderKind::Buy
    }
}

/// What the fee correction reads of an order.
#[derive(Clone, Copy, Debug, Eq, PartialEq)]
pub struct Order {
    /// The token that the order sells.
    pub sell_token: Address,
    /// The token that the order buys.
    pub buy_token: Address,
    /// Whether the order buys or sells.
    pub kind: OrderKind,
}

/// The two tables that hold orders.
#[derive(Clone, Copy, Debug, Eq, PartialEq, Structural)]
pub enum OrderTable {
    /// Regular orders.
    Orders,
    /// Just-in-time orders.
    JitOrders,
}

/// What follows a lookup of an order in one of the tables.
#[derive(Clone, Copy, Debug, Eq, PartialEq)]
pub enum OrderLookup {
    /// The order was found.
    Found(Order),
    /// It was not found; this table is to be asked next.
    AskNext(OrderTable),
    /// It is in neither table: the execution is skipped.
    Missing,
}

/// The table in which the lookup of an order starts.
pub fn first_table() -> (r: OrderTable)
    ensures
        r == OrderTable::Orders,
{
    OrderTable::Orders
}

/// What to do when `table` has answered a lookup with `found`: an order that
/// was found is taken; after a miss in the regular orders the just-in-time
/// orders are asked; after a miss there too the order is missing.
pub fn after_lookup(table: OrderTable, found: Option<Order>) -> (r: OrderLookup)
    ensures
        r == spec_after_lookup(table, found),
{
    match found {
        Some(order) => OrderLookup::Found(order),
        None => match table {
            OrderTable::Orders => OrderLookup::AskNext(OrderTable::JitOrders),
            OrderTable::JitOrders => OrderLookup::Missing,
        },
    }
}

/// What follows a lookup in `table` that was answered with `found`.
pub open spec fn spec_after_lookup(table: OrderTable, found: Option<Order>) -> OrderLookup {
    match found {
        Some(order) => OrderLookup::Found(order),
        None => match table {
            OrderTable::Orders => OrderLookup::AskNext(OrderTable::JitOrders),
            OrderTable::JitOrders => OrderLookup::Missing,
        },
    }
}

/// The order that the two tables give for one id: that of the regular orders
/// where it has one, else that of the just-in-time orders.
pub open spec fn resolved(regular: Option<Order>, jit: Option<Order>) -> Option<Order> {
    match regular {
        Some(order) => Some(order),
        None => jit,
    }
}

/// Following `after_lookup` from the first table ends with the order that
/// `resolved` names, and asks the just-in-time orders only after a miss in the
/// regular ones.
pub proof fn lemma_lookup_resolves(regular: Option<Order>, jit: Option<Order>)
    ensures
        match spec_after_lookup(OrderTable::Orders, regular) {
            OrderLookup::Found(order) => resolved(regular, jit) == Some(order),
            OrderLookup::AskNext(next) => next == OrderTable::JitOrders && regular is None
                && match spec_after_lookup(next, jit) {
                OrderLookup::Found(order) => resolved(regular, jit) == Some(order),
                OrderLookup::AskNext(_) => false,
                OrderLookup::Missing => resolved(regular, jit) is None,
            },
            OrderLookup::Missing => false,
        },
{
}

} // verus!
