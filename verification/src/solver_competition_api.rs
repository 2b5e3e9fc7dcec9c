//! The stored record of one solver competition: its types, their
//! mathematical content, and the order id in its JSON form.

use crate::byte_array::{
    lemma_hex_string_round_trip, spec_from_hex_string, spec_hex_string, Address, ByteArray,
    ByteArrayError,
};
use crate::json::JsonValue;
use crate::price_map::PriceMap;
use crate::u256::U256;
use vstd::prelude::*;
use vstd::utf8::encode_utf8;

verus! {

/// The unique id of an order: 32 bytes of order digest, 20 of the owner's
/// address and 4 of the time until which the order is valid.
#[derive(Clone, Copy, Debug, Eq, Hash, PartialEq, PartialOrd, Ord)]
pub struct OrderUid(pub [u8; 56]);

/// Why a JSON value is no order id.
#[derive(Clone, Copy, Debug, PartialEq, Eq, Structural)]
pub enum OrderUidError {
    /// The value is no string.
    NotAString,
    /// The string is not the printed form of an order id: it does not start
    /// with `0x`, or what follows is not the hex form of 56 bytes.
    Malformed(ByteArrayError),
}

/// What a JSON value reads as an order id.
pub open spec fn spec_deserialize_uid(value: JsonValue) -> Result<Seq<u8>, OrderUidError> {
    match value {
        JsonValue::String(text) => match spec_from_hex_string(encode_utf8(text@), 56) {
            Ok(bytes) => Ok(bytes),
            Err(e) => Err(OrderUidError::Malformed(e)),
        },
        _ => Err(OrderUidError::NotAString),
    }
}

impl OrderUid {
    /// The printed form: `0x` and 112 lowercase hex digits.
    pub fn to_hex_string(&self) -> (s: String)
        ensures
            s@ == spec_hex_string(self.0@),
    {
        ByteArray::<56>(self.0).to_hex_string()
    }

    /// The JSON value that stands for the order id: its printed form as a
    /// string.
    pub fn serialize(&self) -> (r: JsonValue)
        ensures
            r matches JsonValue::String(text) && text@ == spec_hex_string(self.0@),
    {
        JsonValue::String(self.to_hex_string())
    }

    /// Reads an order id from a JSON value, which must be a string that holds
    /// `0x` and 112 hex digits.
    pub fn deserialize(value: &JsonValue) -> (r: Result<OrderUid, OrderUidError>)
        ensures
            match r {
                Ok(uid) => spec_deserialize_uid(*value) == Ok::<Seq<u8>, OrderUidError>(uid.0@),
                Err(e) => spec_deserialize_uid(*value) == Err::<Seq<u8>, OrderUidError>(e),
            },
    {
        match value {
            JsonValue::String(text) => match ByteArray::<56>::from_hex_string(text.as_str()) {
                Ok(id) => Ok(OrderUid(id.0)),
                Err(e) => Err(OrderUidError::Malformed(e)),
            },
            _ => Err(OrderUidError::NotAString),
        }
    }
}

/// An order id that is written as a JSON value reads back as itself.
pub proof fn lemma_uid_round_trip(uid: OrderUid, value: JsonValue)
    requires
        value matches JsonValue::String(text) && text@ == spec_hex_string(uid.0@),
    ensures
        spec_deserialize_uid(value) == Ok::<Seq<u8>, OrderUidError>(uid.0@),
{
    lemma_hex_string_round_trip(uid.0@);
}

/// The score of a solution. The four variants say who computed it; the score
/// itself is one number whatever the variant.
#[derive(Clone, Copy, Debug, PartialEq, Eq)]
pub enum Score {
    /// The score that the solver reported.
    Solver(U256),
    /// The score that the protocol computed: the value of the objective.
    Protocol(U256),
    /// The score that the protocol computed, with the solver's own estimate of
    /// its risk taken into account.
    ProtocolWithSolverRisk(U256),
    /// The protocol's score after a discount. No longer produced; old records
    /// still hold it.
    Discounted(U256),
}

impl Default for Score {
    /// The score that stands where none is given: the protocol's, zero.
    fn default() -> (r: Self)
        ensures
            r matches Score::Protocol(v) && v@ == 0,
    {
        let zero = [0u8; 32];
        proof {
            crate::u256::lemma_be_value_zero(zero@);
        }
        Score::Protocol(U256(zero))
    }
}

impl Score {
    /// The score, whoever computed it.
    pub fn score(&self) -> (r: U256)
        ensures
            r == self.spec_score(),
    {
        match self {
            Score::Solver(score) => *score,
            Score::Protocol(score) => *score,
            Score::ProtocolWithSolverRisk(score) => *score,
            Score::Discounted(score) => *score,
        }
    }

    /// The number that the variant carries.
    pub open spec fn spec_score(&self) -> U256 {
        match *self {
            Score::Solver(score) => score,
            Score::Protocol(score) => score,
            Score::ProtocolWithSolverRisk(score) => score,
            Score::Discounted(score) => score,
        }
    }
}

/// What a solution did with one order. A document says which of the two
/// shapes it is by the members it has, not by a tag.
#[derive(Clone, Copy, Debug, PartialEq, Eq)]
pub enum Order {
    /// The amounts that left and reached the user's wallet.
    Colocated {
        /// The order.
        id: OrderUid,
        /// What left the user's wallet, all fees included.
        sell_amount: U256,
        /// What the user received after all fees.
        buy_amount: U256,
    },
    /// The one executed amount of older records.
    Legacy {
        /// The order.
        id: OrderUid,
        /// The amount that was executed.
        executed_amount: U256,
    },
}

/// The solution that one solver proposed.
#[derive(Clone, Debug, PartialEq, Eq)]
pub struct SolverSettlement {
    /// The solver's name.
    pub solver: String,
    /// The solver's address; all zero where the record has none.
    pub solver_address: Address,
    /// The score, where the record has one.
    pub score: Option<Score>,
    /// The solution's rank; 0 where the record has none.
    pub ranking: usize,
    /// The price at which the solution clears each token.
    pub clearing_prices: PriceMap,
    /// What the solution did with each order.
    pub orders: Vec<Order>,
}

/// The auction that the solvers competed for.
#[derive(Clone, Debug, PartialEq, Eq)]
pub struct CompetitionAuction {
    /// The orders of the auction, in the order of the record.
    pub orders: Vec<OrderUid>,
    /// The external reference price of each token.
    pub prices: PriceMap,
}

/// The record of one competition as the database stores it.
#[derive(Clone, Debug, PartialEq, Eq)]
pub struct SolverCompetitionDB {
    /// The block at which the auction started.
    pub auction_start_block: u64,
    /// The block on which the solutions were simulated.
    pub competition_simulation_block: u64,
    /// The auction.
    pub auction: CompetitionAuction,
    /// The solutions, the winning one last.
    pub solutions: Vec<SolverSettlement>,
}

/// The record of one competition as the API returns it.
#[derive(Clone, Debug, PartialEq, Eq)]
pub struct SolverCompetitionAPI {
    /// The id of the auction; 0 where the record has none.
    pub auction_id: i64,
    /// The hashes of the transactions that settled the auction.
    pub transaction_hashes: Vec<ByteArray<32>>,
    /// What the stored record holds.
    pub common: SolverCompetitionDB,
}

/// The parts of a record that a document can fail in.
#[derive(Clone, Copy, Debug, PartialEq, Eq, Structural)]
pub enum Field {
    /// The record itself, which must be an object.
    Record,
    /// `auctionStartBlock`.
    AuctionStartBlock,
    /// `competitionSimulationBlock`.
    CompetitionSimulationBlock,
    /// `auction`, which must be an object.
    Auction,
    /// `orders` of the auction.
    AuctionOrders,
    /// `prices` of the auction.
    AuctionPrices,
    /// `solutions`, each of which must be an object.
    Solutions,
    /// `solver` of a solution.
    Solver,
    /// `solverAddress` of a solution.
    SolverAddress,
    /// The score of a solution.
    Score,
    /// `ranking` of a solution.
    Ranking,
    /// `clearingPrices` of a solution.
    ClearingPrices,
    /// `orders` of a solution.
    SolutionOrders,
    /// One entry of the `orders` of a solution.
    OrderExecution,
    /// `auctionId`.
    AuctionId,
    /// `transactionHashes`.
    TransactionHashes,
}

/// What is wrong with a part of a record.
#[derive(Clone, Copy, Debug, PartialEq, Eq, Structural)]
pub enum Problem {
    /// The document does not have it.
    Missing,
    /// The document has it, but not in a form that can be read.
    Invalid,
}

/// Why a document is no record of a competition.
#[derive(Clone, Copy, Debug, PartialEq, Eq, Structural)]
pub struct DecodeError {
    /// The part that the document fails in.
    pub field: Field,
    /// What is wrong with it.
    pub problem: Problem,
}

/// The error of a part that the document does not have.
pub open spec fn missing(field: Field) -> DecodeError {
    DecodeError { field, problem: Problem::Missing }
}

/// The error of a part that cannot be read.
pub open spec fn invalid(field: Field) -> DecodeError {
    DecodeError { field, problem: Problem::Invalid }
}

/// The mathematical content of a `SolverSettlement`.
pub struct SettlementView {
    /// The solver's name.
    pub solver: Seq<char>,
    /// The solver's address.
    pub solver_address: Address,
    /// The score.
    pub score: Option<Score>,
    /// The rank.
    pub ranking: usize,
    /// The clearing prices, in the order of their tokens.
    pub clearing_prices: Seq<(Address, U256)>,
    /// What the solution did with each order.
    pub orders: Seq<Order>,
}

/// The mathematical content of a `SolverCompetitionDB`.
pub struct CompetitionView {
    /// The block at which the auction started.
    pub auction_start_block: u64,
    /// The block on which the solutions were simulated.
    pub competition_simulation_block: u64,
    /// The orders of the auction.
    pub orders: Seq<OrderUid>,
    /// The reference prices, in the order of their tokens.
    pub prices: Seq<(Address, U256)>,
    /// The solutions.
    pub solutions: Seq<SettlementView>,
}

impl View for SolverSettlement {
    type V = SettlementView;

    open spec fn view(&self) -> SettlementView {
        SettlementView {
            solver: self.solver@,
            solver_address: self.solver_address,
            score: self.score,
            ranking: self.ranking,
            clearing_prices: self.clearing_prices.entries@,
            orders: self.orders@,
        }
    }
}

/// The content of each of `solutions`.
pub open spec fn settlement_views(solutions: Seq<SolverSettlement>) -> Seq<SettlementView> {
    Seq::new(solutions.len(), |i: int| solutions[i]@)
}

impl View for SolverCompetitionDB {
    type V = CompetitionView;

    open spec fn view(&self) -> CompetitionView {
        CompetitionView {
            auction_start_block: self.auction_start_block,
            competition_simulation_block: self.competition_simulation_block,
            orders: self.auction.orders@,
            prices: self.auction.prices.entries@,
            solutions: settlement_views(self.solutions@),
        }
    }
}

/// The mathematical content of a `SolverCompetitionAPI`.
pub struct ApiView {
    /// The id of the auction.
    pub auction_id: i64,
    /// The hashes of the transactions that settled the auction.
    pub transaction_hashes: Seq<ByteArray<32>>,
    /// What the stored record holds.
    pub common: CompetitionView,
}

impl View for SolverCompetitionAPI {
    type V = ApiView;

    open spec fn view(&self) -> ApiView {
        ApiView {
            auction_id: self.auction_id,
            transaction_hashes: self.transaction_hashes@,
            common: self.common@,
        }
    }
}

impl SolverCompetitionDB {
    /// Every price map of the record is in the order of its addresses.
    pub open spec fn wf(&self) -> bool {
        &&& self.auction.prices.wf()
        &&& forall|i: int|
            0 <= i < self.solutions@.len() ==> (#[trigger] self.solutions@[i]).clearing_prices.wf()
    }

    /// Whether every price map of the record is in the order of its
    /// addresses.
    pub fn is_well_formed(&self) -> (r: bool)
        ensures
            r == self.wf(),
    {
        if !self.auction.prices.is_well_formed() {
            return false;
        }
        let mut i: usize = 0;
        while i < self.solutions.len()
            invariant
                i <= self.solutions@.len(),
                forall|j: int| 0 <= j < i ==> (#[trigger] self.solutions@[j]).clearing_prices.wf(),
            decreases self.solutions@.len() - i,
        {
            if !self.solutions[i].clearing_prices.is_well_formed() {
                return false;
            }
            i += 1;
        }
        true
    }
}

} // verus!
