//! Rows of the table of competitions and of the table of normalized auctions.

use crate::byte_array::{Address, OrderUid};
use crate::decimal::{BigDecimal, Decimal};
use crate::json::JsonValue;
use vstd::prelude::*;

verus! {

/// One competition as the walk fetches it: the stored record with the
/// deadline and the owners that other tables hold for the same auction.
#[derive(Debug, PartialEq, Eq)]
pub struct RichSolverCompetition {
    /// The id of the competition.
    pub id: i64,
    /// The stored record.
    pub json: JsonValue,
    /// The block by which the auction had to settle; 0 where none is known.
    pub deadline: i64,
    /// The owners whose just-in-time orders capture surplus; empty where none
    /// are known.
    pub surplus_capturing_jit_order_owners: Vec<Address>,
}

/// One row of the table of normalized auctions.
#[derive(Clone, Debug, PartialEq, Eq)]
pub struct Auction {
    /// The id of the competition that the row was made from.
    pub id: i64,
    /// The block at which the auction started.
    pub block: i64,
    /// The block by which the auction had to settle.
    pub deadline: i64,
    /// The orders of the auction.
    pub order_uids: Vec<OrderUid>,
    /// The tokens that have an external reference price.
    pub price_tokens: Vec<Address>,
    /// The price of each token of `price_tokens`, at the same index.
    pub price_values: Vec<BigDecimal>,
    /// The owners whose just-in-time orders capture surplus.
    pub surplus_capturing_jit_order_owners: Vec<Address>,
}

/// The mathematical content of an `Auction`.
pub struct AuctionView {
    /// The id of the competition that the row was made from.
    pub id: i64,
    /// The block at which the auction started.
    pub block: i64,
    /// The block by which the auction had to settle.
    pub deadline: i64,
    /// The orders of the auction.
    pub order_uids: Seq<OrderUid>,
    /// The tokens that have an external reference price.
    pub price_tokens: Seq<Address>,
    /// The price of each token of `price_tokens`, at the same index.
    pub price_values: Seq<Decimal>,
    /// The owners whose just-in-time orders capture surplus.
    pub surplus_capturing_jit_order_owners: Seq<Address>,
}

/// The content of each of `values`.
pub open spec fn decimal_views(values: Seq<BigDecimal>) -> Seq<Decimal> {
    Seq::new(values.len(), |i: int| values[i]@)
}

impl View for Auction {
    type V = AuctionView;

    open spec fn view(&self) -> AuctionView {
        AuctionView {
            id: self.id,
            block: self.block,
            deadline: self.deadline,
            order_uids: self.order_uids@,
            price_tokens: self.price_tokens@,
            price_values: decimal_views(self.price_values@),
            surplus_capturing_jit_order_owners: self.surplus_capturing_jit_order_owners@,
        }
    }
}

} // verus!
