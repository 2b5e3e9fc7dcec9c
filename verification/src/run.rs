//! What the two walks do with one competition that they have fetched: the
//! normalized auction that is made of it, and the correction of the fees of
//! its order executions.

use crate::byte_array::{Address, ByteArray, KeyOrder};
use crate::database_order_executions::{OrderExecution, OrderExecutionView};
use crate::database_orders::{Order, OrderKind};
use crate::database_solver_competition::{
    decimal_views, Auction, AuctionView, RichSolverCompetition,
};
use crate::decimal::{big_decimal_to_u256, u256_to_big_decimal, BigDecimal, Decimal};
use crate::json::JsonValue;
use crate::price_map::price_of;
use crate::record_decoder::competition_in;
use crate::solver_competition_api::{CompetitionView, DecodeError, SolverCompetitionDB};
use crate::u256::{checked_div, checked_mul, lemma_u256_of, u256_limit, u256_of, U256};
use vstd::prelude::*;

verus! {

/// What the fee correction does with one order execution.
#[derive(Clone, Debug, PartialEq, Eq)]
pub enum FeeConversion {
    /// The row is to be updated to this one: the fee in units of the buy
    /// token, and the buy token as the fee token.
    Converted(OrderExecution),
    /// Nothing to correct: the order buys, or the fee is not counted in the
    /// order's sell token.
    NotApplicable,
    /// The final solution has no price for the sell token or for the buy
    /// token, or the competition has no solution at all: the row is skipped
    /// with a warning.
    PricesNotFound,
    /// The stored fee is no amount: it is negative, has a fraction or does
    /// not fit 256 bits.
    InvalidFee,
    /// The fee times the price of the sell token does not fit 256 bits.
    Overflow,
    /// The price of the buy token is zero.
    ZeroBuyPrice,
}

/// The mathematical content of a `FeeConversion`.
pub enum FeeVerdict {
    /// The row is to be updated to this one.
    Converted(OrderExecutionView),
    /// Nothing to correct.
    NotApplicable,
    /// A price is missing.
    PricesNotFound,
    /// The stored fee is no amount.
    InvalidFee,
    /// The product does not fit 256 bits.
    Overflow,
    /// The price of the buy token is zero.
    ZeroBuyPrice,
}

impl View for FeeConversion {
    type V = FeeVerdict;

    open spec fn view(&self) -> FeeVerdict {
        match *self {
            FeeConversion::Converted(row) => FeeVerdict::Converted(row@),
            FeeConversion::NotApplicable => FeeVerdict::NotApplicable,
            FeeConversion::PricesNotFound => FeeVerdict::PricesNotFound,
            FeeConversion::InvalidFee => FeeVerdict::InvalidFee,
            FeeConversion::Overflow => FeeVerdict::Overflow,
            FeeConversion::ZeroBuyPrice => FeeVerdict::ZeroBuyPrice,
        }
    }
}

/// The clearing prices of the final solution of a competition, which is the
/// last of its solutions.
pub open spec fn final_prices(competition: CompetitionView) -> Option<Seq<(Address, U256)>> {
    if competition.solutions.len() == 0 {
        None
    } else {
        Some(competition.solutions.last().clearing_prices)
    }
}

/// Whether a fee needs correcting: the order sells, and the fee is counted in
/// the token that the order sells.
pub open spec fn fee_needs_conversion(fee_token: Address, order: Order) -> bool {
    order.kind == OrderKind::Sell && fee_token == order.sell_token
}

/// The fee `fee`, counted in a token with the price `sell_price`, in units of
/// a token with the price `buy_price`: `fee * sell_price / buy_price`, rounded
/// down.
pub open spec fn fee_in_buy_token(fee: nat, sell_price: nat, buy_price: nat) -> nat {
    fee * sell_price / buy_price
}

/// What the fee correction decides for the row `execution`, whose order is
/// `order`, under the clearing prices `prices` of the final solution. Where
/// the order sells and the fee is counted in its sell token, and both tokens
/// have a price, the fee is re-expressed in the buy token and the buy token
/// becomes the fee token; the rest of the row stays.
pub open spec fn fee_verdict(
    execution: OrderExecutionView,
    order: Order,
    prices: Option<Seq<(Address, U256)>>,
) -> FeeVerdict {
    if !fee_needs_conversion(execution.executed_fee_token, order) {
        FeeVerdict::NotApplicable
    } else if prices is None {
        FeeVerdict::PricesNotFound
    } else {
        let sell = price_of(prices.unwrap(), order.sell_token);
        let buy = price_of(prices.unwrap(), order.buy_token);
        let fee = execution.executed_fee.as_u256();
        if sell is None || buy is None {
            FeeVerdict::PricesNotFound
        } else if fee is None {
            FeeVerdict::InvalidFee
        } else if fee.unwrap() * sell.unwrap()@ >= u256_limit() {
            FeeVerdict::Overflow
        } else if buy.unwrap()@ == 0 {
            FeeVerdict::ZeroBuyPrice
        } else {
            FeeVerdict::Converted(
                OrderExecutionView {
                    order_uid: execution.order_uid,
                    auction_id: execution.auction_id,
                    executed_fee: Decimal::of_bytes(
                        u256_of(fee_in_buy_token(fee.unwrap(), sell.unwrap()@, buy.unwrap()@)).0@,
                    ),
                    executed_fee_token: order.buy_token,
                },
            )
        }
    }
}

/// Decides what the fee correction does with one order execution of the
/// competition `competition`, whose order is `order`.
pub fn convert_executed_fee(
    execution: &OrderExecution,
    order: &Order,
    competition: &SolverCompetitionDB,
) -> (r: FeeConversion)
    requires
        competition.wf(),
    ensures
        r@ == fee_verdict(execution@, *order, final_prices(competition@)),
{
    let in_sell_token = match execution.executed_fee_token.order(&order.sell_token) {
        KeyOrder::Same => true,
        _ => false,
    };
    if !(order.kind == OrderKind::Sell && in_sell_token) {
        return FeeConversion::NotApplicable;
    }
    let count = competition.solutions.len();
    if count == 0 {
        return FeeConversion::PricesNotFound;
    }
    let prices = &competition.solutions[count - 1].clearing_prices;
    let (sell_token_price, buy_token_price) = match (
        prices.get(&order.sell_token),
        prices.get(&order.buy_token),
    ) {
        (Some(sell_token_price), Some(buy_token_price)) => (sell_token_price, buy_token_price),
        _ => {
            return FeeConversion::PricesNotFound;
        },
    };
    let executed_fee = match big_decimal_to_u256(&execution.executed_fee) {
        Some(executed_fee) => executed_fee,
        None => {
            return FeeConversion::InvalidFee;
        },
    };
    let product = match checked_mul(&executed_fee, &sell_token_price) {
        Some(product) => product,
        None => {
            return FeeConversion::Overflow;
        },
    };
    let fee_in_buy_token = match checked_div(&product, &buy_token_price) {
        Some(fee_in_buy_token) => fee_in_buy_token,
        None => {
            return FeeConversion::ZeroBuyPrice;
        },
    };
    proof {
        lemma_u256_of(fee_in_buy_token);
    }
    FeeConversion::Converted(
        OrderExecution {
            order_uid: execution.order_uid,
            auction_id: execution.auction_id,
            executed_fee: u256_to_big_decimal(&fee_in_buy_token),
            executed_fee_token: order.buy_token,
        },
    )
}

/// The content of each of `outcomes`.
pub open spec fn verdicts(outcomes: Seq<FeeConversion>) -> Seq<FeeVerdict> {
    Seq::new(outcomes.len(), |i: int| outcomes[i]@)
}

/// What the fee correction decides for each of `rows`, in their order.
pub open spec fn fee_verdicts(
    rows: Seq<(OrderExecution, Order)>,
    prices: Option<Seq<(Address, U256)>>,
) -> Seq<FeeVerdict> {
    Seq::new(rows.len(), |i: int| fee_verdict(rows[i].0@, rows[i].1, prices))
}

/// Decides what the fee correction does with each order execution of one
/// competition, in the order of `rows`. Each row comes with its order.
pub fn convert_executed_fees(
    rows: &Vec<(OrderExecution, Order)>,
    competition: &SolverCompetitionDB,
) -> (r: Vec<FeeConversion>)
    requires
        competition.wf(),
    ensures
        verdicts(r@) == fee_verdicts(rows@, final_prices(competition@)),
{
    let mut out: Vec<FeeConversion> = Vec::new();
    let mut i: usize = 0;
    while i < rows.len()
        invariant
            competition.wf(),
            i <= rows@.len(),
            out@.len() == i,
            forall|j: int|
                0 <= j < i ==> (#[trigger] out@[j])@ == fee_verdict(
                    rows@[j].0@,
                    rows@[j].1,
                    final_prices(competition@),
                ),
        decreases rows@.len() - i,
    {
        let outcome = convert_executed_fee(&rows[i].0, &rows[i].1, competition);
        out.push(outcome);
        i += 1;
    }
    assert(verdicts(out@) =~= fee_verdicts(rows@, final_prices(competition@)));
    out
}

/// A fee that was corrected is not corrected again: the corrected row counts
/// its fee in the buy token, so that a second pass leaves it as it is,
/// whatever the prices then are. This holds of every order whose sell token
/// and buy token differ.
pub proof fn lemma_fee_conversion_is_idempotent(
    execution: OrderExecutionView,
    order: Order,
    prices: Option<Seq<(Address, U256)>>,
    second_prices: Option<Seq<(Address, U256)>>,
)
    requires
        order.sell_token != order.buy_token,
    ensures
        fee_verdict(execution, order, prices) matches FeeVerdict::Converted(corrected)
            ==> fee_verdict(corrected, order, second_prices) is NotApplicable,
{
}

/// Why a competition gives no normalized auction.
#[derive(Clone, Copy, Debug, PartialEq, Eq, Structural)]
pub enum NormalizeError {
    /// The block at which the auction started does not fit the signed 64-bit
    /// column of the table.
    BlockOverflow,
}

/// The normalized auction of the competition `competition` that was fetched
/// as `row`: the id, deadline and owners of the row; the start block and the
/// orders of the record, in their order; and the record's reference prices in
/// the order of their tokens, the token of each in `price_tokens` and its
/// price, as a decimal of scale 0, at the same index of `price_values`. There
/// is none where the start block is beyond the signed 64-bit range.
pub open spec fn normalized(row: RichSolverCompetition, competition: CompetitionView) -> Result<
    AuctionView,
    NormalizeError,
> {
    if competition.auction_start_block > i64::MAX {
        Err(NormalizeError::BlockOverflow)
    } else {
        Ok(
            AuctionView {
                id: row.id,
                block: competition.auction_start_block as i64,
                deadline: row.deadline,
                order_uids: Seq::new(
                    competition.orders.len(),
                    |i: int| ByteArray(competition.orders[i].0),
                ),
                price_tokens: Seq::new(competition.prices.len(), |i: int| competition.prices[i].0),
                price_values: Seq::new(
                    competition.prices.len(),
                    |i: int| Decimal::of_bytes(competition.prices[i].1.0@),
                ),
                surplus_capturing_jit_order_owners: row.surplus_capturing_jit_order_owners@,
            },
        )
    }
}

/// Builds the normalized auction of one competition.
pub fn historic_auction(
    solver_competition: &RichSolverCompetition,
    competition: &SolverCompetitionDB,
) -> (r: Result<Auction, NormalizeError>)
    ensures
        match r {
            Ok(auction) => normalized(*solver_competition, competition@) == Ok::<
                AuctionView,
                NormalizeError,
            >(auction@),
            Err(e) => normalized(*solver_competition, competition@) == Err::<
                AuctionView,
                NormalizeError,
            >(e),
        },
{
    if competition.auction_start_block > i64::MAX as u64 {
        return Err(NormalizeError::BlockOverflow);
    }
    let block = competition.auction_start_block as i64;
    let orders = &competition.auction.orders;
    let mut order_uids: Vec<crate::byte_array::OrderUid> = Vec::new();
    let mut i: usize = 0;
    while i < orders.len()
        invariant
            i <= orders@.len(),
            order_uids@.len() == i,
            forall|j: int| 0 <= j < i ==> #[trigger] order_uids@[j] == ByteArray(orders@[j].0),
        decreases orders@.len() - i,
    {
        order_uids.push(ByteArray(orders[i].0));
        i += 1;
    }
    let prices = &competition.auction.prices.entries;
    let mut price_tokens: Vec<Address> = Vec::new();
    let mut price_values: Vec<BigDecimal> = Vec::new();
    let mut k: usize = 0;
    while k < prices.len()
        invariant
            k <= prices@.len(),
            price_tokens@.len() == k,
            price_values@.len() == k,
            forall|j: int| 0 <= j < k ==> #[trigger] price_tokens@[j] == prices@[j].0,
            forall|j: int|
                0 <= j < k ==> (#[trigger] price_values@[j])@ == Decimal::of_bytes(
                    prices@[j].1.0@,
                ),
        decreases prices@.len() - k,
    {
        price_tokens.push(prices[k].0);
        price_values.push(u256_to_big_decimal(&prices[k].1));
        k += 1;
    }
    let owners = &solver_competition.surplus_capturing_jit_order_owners;
    let mut surplus_capturing_jit_order_owners: Vec<Address> = Vec::new();
    let mut n: usize = 0;
    while n < owners.len()
        invariant
            n <= owners@.len(),
            surplus_capturing_jit_order_owners@ == owners@.take(n as int),
        decreases owners@.len() - n,
    {
        surplus_capturing_jit_order_owners.push(owners[n]);
        assert(owners@.take(n as int).push(owners@[n as int]) =~= owners@.take(n as int + 1));
        n += 1;
    }
    let auction = Auction {
        id: solver_competition.id,
        block,
        deadline: solver_competition.deadline,
        order_uids,
        price_tokens,
        price_values,
        surplus_capturing_jit_order_owners,
    };
    proof {
        let expected = normalized(*solver_competition, competition@).unwrap();
        assert(owners@.take(owners@.len() as int) =~= owners@);
        assert(auction@.order_uids =~= expected.order_uids);
        assert(auction@.price_tokens =~= expected.price_tokens);
        assert(decimal_views(auction.price_values@) =~= expected.price_values);
    }
    Ok(auction)
}

/// Why a fetched row gives no normalized auction.
#[derive(Clone, Copy, Debug, PartialEq, Eq, Structural)]
pub enum PopulateError {
    /// The stored document is no record of a competition.
    Decode(DecodeError),
    /// The record cannot be normalized.
    Normalize(NormalizeError),
}

/// The normalized auction of the fetched row `row`, or what stands against
/// it: the stored document must be a record, and the record must normalize.
pub open spec fn populated(row: RichSolverCompetition) -> Result<AuctionView, PopulateError> {
    match competition_in(row.json) {
        Err(e) => Err(PopulateError::Decode(e)),
        Ok(competition) => match normalized(row, competition) {
            Err(e) => Err(PopulateError::Normalize(e)),
            Ok(auction) => Ok(auction),
        },
    }
}

/// What the walk that fills the table of normalized auctions does with one
/// fetched row: it reads the stored document as a record and builds the
/// auction of that record. An error is the row's own: the walk logs it and
/// goes on with the next row.
pub fn populate_historic_auction(solver_competition: &RichSolverCompetition) -> (r: Result<
    Auction,
    PopulateError,
>)
    ensures
        match r {
            Ok(auction) => populated(*solver_competition) == Ok::<AuctionView, PopulateError>(
                auction@,
            ),
            Err(e) => populated(*solver_competition) == Err::<AuctionView, PopulateError>(e),
        },
{
    let competition = match SolverCompetitionDB::from_json(&solver_competition.json) {
        Ok(competition) => competition,
        Err(e) => {
            return Err(PopulateError::Decode(e));
        },
    };
    match historic_auction(solver_competition, &competition) {
        Ok(auction) => Ok(auction),
        Err(e) => Err(PopulateError::Normalize(e)),
    }
}

/// What the table of normalized auctions holds after the insert of `auction`
/// into `table`. The id is the key of the table: a row whose id the table
/// already has is rejected, and the table stays as it is.
pub open spec fn after_save(table: Map<i64, AuctionView>, auction: AuctionView) -> Map<
    i64,
    AuctionView,
> {
    if table.contains_key(auction.id) {
        table
    } else {
        table.insert(auction.id, auction)
    }
}

/// What normalizing each of `rows` gives, in their order.
pub open spec fn outcomes_of(rows: Seq<RichSolverCompetition>) -> Seq<
    Result<AuctionView, PopulateError>,
> {
    Seq::new(rows.len(), |i: int| populated(rows[i]))
}

/// What the table of normalized auctions holds after a run with the outcomes
/// `outcomes`: each auction was saved in its turn; a row that gave no auction
/// left the table as it was.
pub open spec fn after_run(
    table: Map<i64, AuctionView>,
    outcomes: Seq<Result<AuctionView, PopulateError>>,
) -> Map<i64, AuctionView>
    decreases outcomes.len(),
{
    if outcomes.len() == 0 {
        table
    } else {
        let before = after_run(table, outcomes.drop_last());
        match outcomes.last() {
            Ok(auction) => after_save(before, auction),
            Err(_) => before,
        }
    }
}

/// Normalizing the same rows a second time changes nothing: the rows give the
/// same auctions again, each of which has the id of a row that the first run
/// saved or found in the table, and is rejected.
pub proof fn lemma_normalization_is_idempotent(
    table: Map<i64, AuctionView>,
    rows: Seq<RichSolverCompetition>,
)
    ensures
        after_run(after_run(table, outcomes_of(rows)), outcomes_of(rows)) == after_run(
            table,
            outcomes_of(rows),
        ),
{
    let outcomes = outcomes_of(rows);
    lemma_run_keeps_ids(table, outcomes);
    lemma_second_run(after_run(table, outcomes), outcomes, outcomes.len() as int);
    assert(outcomes.take(outcomes.len() as int) =~= outcomes);
}

/// A run keeps every row that the table had, and the table then has the id of
/// every auction of the run.
pub proof fn lemma_run_keeps_ids(
    table: Map<i64, AuctionView>,
    outcomes: Seq<Result<AuctionView, PopulateError>>,
)
    ensures
        forall|id: i64|
            table.contains_key(id) ==> #[trigger] after_run(table, outcomes).contains_key(id),
        forall|i: int|
            0 <= i < outcomes.len() && (#[trigger] outcomes[i]) is Ok ==> after_run(
                table,
                outcomes,
            ).contains_key(outcomes[i].unwrap().id),
    decreases outcomes.len(),
{
    if outcomes.len() > 0 {
        let front = outcomes.drop_last();
        lemma_run_keeps_ids(table, front);
        assert forall|id: i64| table.contains_key(id) implies #[trigger] after_run(
            table,
            outcomes,
        ).contains_key(id) by {
            assert(after_run(table, front).contains_key(id));
        }
        assert forall|i: int| 0 <= i < outcomes.len() && (#[trigger] outcomes[i]) is Ok implies
            after_run(table, outcomes).contains_key(outcomes[i].unwrap().id) by {
            if i < front.len() {
                assert(front[i] == outcomes[i]);
            }
        }
    }
}

/// A run with the first `n` of `outcomes` leaves a table as it is that
/// already has the id of every auction among `outcomes`.
proof fn lemma_second_run(
    table: Map<i64, AuctionView>,
    outcomes: Seq<Result<AuctionView, PopulateError>>,
    n: int,
)
    requires
        0 <= n <= outcomes.len(),
        forall|i: int|
            0 <= i < outcomes.len() && (#[trigger] outcomes[i]) is Ok ==> table.contains_key(
                outcomes[i].unwrap().id,
            ),
    ensures
        after_run(table, outcomes.take(n)) == table,
    decreases n,
{
    if n > 0 {
        lemma_second_run(table, outcomes, n - 1);
        assert(outcomes.take(n).drop_last() =~= outcomes.take(n - 1));
        assert(outcomes.take(n).last() == outcomes[n - 1]);
    }
}

/// What the walk that corrects fees does with one fetched competition: it
/// reads the stored document as a record and decides for each order
/// execution of the competition, which comes with its order, what becomes of
/// its fee. A document that is no record is the row's own error.
pub fn convert_competition_fees(json: &JsonValue, rows: &Vec<(OrderExecution, Order)>) -> (r:
    Result<Vec<FeeConversion>, DecodeError>)
    ensures
        match competition_in(*json) {
            Err(e) => r == Err::<Vec<FeeConversion>, DecodeError>(e),
            Ok(competition) => r matches Ok(outcomes) && verdicts(outcomes@) == fee_verdicts(
                rows@,
                final_prices(competition),
            ),
        },
{
    match SolverCompetitionDB::from_json(json) {
        Ok(competition) => Ok(convert_executed_fees(rows, &competition)),
        Err(e) => Err(e),
    }
}

} // verus!
