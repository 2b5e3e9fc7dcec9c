//! Rows of the table of order executions.

use crate::byte_array::{Address, OrderUid};
use crate::decimal::{BigDecimal, Decimal};
use vstd::prelude::*;

verus! {

/// The fee that one order paid in one auction.
#[derive(Clone, Debug, PartialEq, Eq)]
pub struct OrderExecution {
    /// The order; with `auction_id` the key of the row.
    pub order_uid: OrderUid,
    /// The auction, which has the id of its competition.
    pub auction_id: i64,
    /// The fee, in units of `executed_fee_token`.
    pub executed_fee: BigDecimal,
    /// The token in which the fee is counted.
    pub executed_fee_token: Address,
}

/// The mathematical content of an `OrderExecution`.
pub struct OrderExecutionView {
    /// The order.
    pub order_uid: OrderUid,
    /// The auction.
    pub auction_id: i64,
    /// The fee.
    pub executed_fee: Decimal,
    /// The token in which the fee is counted.
    pub executed_fee_token: Address,
}

impl View for OrderExecution {
    type V = OrderExecutionView;

    open spec fn view(&self) -> OrderExecutionView {
        OrderExecutionView {
            order_uid: self.order_uid,
            auction_id: self.auction_id,
            executed_fee: self.executed_fee@,
            executed_fee_token: self.executed_fee_token,
        }
    }
}

} // verus!
