//! The rules by which a JSON document is read as the record of a
//! competition: first as a specification, member by member, then as the code
//! that reads a document and is proved to follow it.

use crate::byte_array::{array_of, lemma_array_of, spec_from_hex_string, Address, ByteArray};
use crate::json::{get_member, member, JsonNumber, JsonValue};
use crate::price_map::{with_price, PriceMap};
use crate::solver_competition_api::{
    invalid, missing, settlement_views, ApiView, CompetitionAuction, CompetitionView, DecodeError,
    Field, Order, OrderUid, Problem, Score, SettlementView, SolverCompetitionAPI,
    SolverCompetitionDB, SolverSettlement,
};
use crate::u256::{hex_or_decimal_parse, lemma_u256_of, parse_hex_or_decimal, u256_of, U256};
use vstd::prelude::*;
use vstd::string::StringSliceAdditionalSpecFns;
use vstd::utf8::encode_utf8;

verus! {

/// The amount that a JSON value holds: it must be a string, `0x` and hex
/// digits or decimal digits.
pub open spec fn amount_in(value: JsonValue) -> Option<U256> {
    match value {
        JsonValue::String(text) => match hex_or_decimal_parse(encode_utf8(text@)) {
            Some(v) => Some(u256_of(v)),
            None => None,
        },
        _ => None,
    }
}

/// The identifier of `N` bytes that a text is the printed form of.
pub open spec fn identifier_of_text<const N: usize>(text: Seq<char>) -> Option<[u8; N]> {
    match spec_from_hex_string(encode_utf8(text), N as nat) {
        Ok(bytes) => Some(array_of::<N>(bytes)),
        Err(_) => None,
    }
}

/// The amount that the member `key` of an object holds.
pub open spec fn amount_member(members: Seq<(String, JsonValue)>, key: Seq<char>) -> Option<
    U256,
> {
    match member(members, key) {
        Some(value) => amount_in(value),
        None => None,
    }
}

/// The order id that the member `id` of an object holds.
pub open spec fn uid_member(members: Seq<(String, JsonValue)>) -> Option<OrderUid> {
    match member(members, "id"@) {
        Some(value) => uid_in(value),
        None => None,
    }
}

/// The order id that a JSON value holds: it must be a string, `0x` and 112
/// hex digits.
pub open spec fn uid_in(value: JsonValue) -> Option<OrderUid> {
    match value {
        JsonValue::String(text) => match identifier_of_text::<56>(text@) {
            Some(bytes) => Some(OrderUid(bytes)),
            None => None,
        },
        _ => None,
    }
}

/// An object read as the shape with `sellAmount` and `buyAmount`.
pub open spec fn colocated_in(members: Seq<(String, JsonValue)>) -> Option<Order> {
    match (
        uid_member(members),
        amount_member(members, "sellAmount"@),
        amount_member(members, "buyAmount"@),
    ) {
        (Some(id), Some(sell_amount), Some(buy_amount)) => Some(
            Order::Colocated { id, sell_amount, buy_amount },
        ),
        _ => None,
    }
}

/// An object read as the shape with `executedAmount`.
pub open spec fn legacy_in(members: Seq<(String, JsonValue)>) -> Option<Order> {
    match (uid_member(members), amount_member(members, "executedAmount"@)) {
        (Some(id), Some(executed_amount)) => Some(Order::Legacy { id, executed_amount }),
        _ => None,
    }
}

/// What a solution did with one order, as a JSON value says it. The members
/// that the object has decide the shape: with an id, `sellAmount` and
/// `buyAmount` that can be read it is the colocated shape; failing that, with
/// an id and an `executedAmount` that can be read it is the legacy shape;
/// failing that too it is an error.
pub open spec fn order_in(value: JsonValue) -> Result<Order, DecodeError> {
    match value {
        JsonValue::Object(members) => match colocated_in(members@) {
            Some(order) => Ok(order),
            None => match legacy_in(members@) {
                Some(order) => Ok(order),
                None => Err(invalid(Field::OrderExecution)),
            },
        },
        _ => Err(invalid(Field::OrderExecution)),
    }
}

/// The members of an object decide the shape of an order execution, and an
/// object with neither shape is an error: with an id, a `sellAmount` and a
/// `buyAmount` that can be read the order is colocated, whatever else the
/// object holds; failing that, with an id and an `executedAmount` that can be
/// read it is legacy; failing that too it is no order execution.
pub proof fn lemma_order_shapes(value: JsonValue)
    requires
        value is Object,
    ensures
        ({
            let members = value->Object_0@;
            match (
                uid_member(members),
                amount_member(members, "sellAmount"@),
                amount_member(members, "buyAmount"@),
                amount_member(members, "executedAmount"@),
            ) {
                (Some(id), Some(sell_amount), Some(buy_amount), _) => order_in(value) == Ok::<
                    Order,
                    DecodeError,
                >(Order::Colocated { id, sell_amount, buy_amount }),
                (Some(id), _, _, Some(executed_amount)) => order_in(value) == Ok::<
                    Order,
                    DecodeError,
                >(Order::Legacy { id, executed_amount }),
                _ => order_in(value) == Err::<Order, DecodeError>(invalid(Field::OrderExecution)),
            }
        }),
{
}

/// `done` followed by what the JSON values `items` hold as order executions;
/// the first that holds none is the error.
pub open spec fn orders_in(done: Seq<Order>, items: Seq<JsonValue>) -> Result<
    Seq<Order>,
    DecodeError,
>
    decreases items.len(),
{
    if items.len() == 0 {
        Ok(done)
    } else {
        match order_in(items[0]) {
            Ok(order) => orders_in(done.push(order), items.drop_first()),
            Err(e) => Err(e),
        }
    }
}

/// `done` followed by the order ids that the JSON values `items` hold.
pub open spec fn uids_in(done: Seq<OrderUid>, items: Seq<JsonValue>) -> Result<
    Seq<OrderUid>,
    DecodeError,
>
    decreases items.len(),
{
    if items.len() == 0 {
        Ok(done)
    } else {
        match uid_in(items[0]) {
            Some(uid) => uids_in(done.push(uid), items.drop_first()),
            None => Err(invalid(Field::AuctionOrders)),
        }
    }
}

/// The prices `done` with the prices that the members `members` of an object
/// hold set one after the other: each key must be the printed form of an
/// address and each value an amount. A token that occurs twice ends with the
/// price that comes last.
pub open spec fn price_entries_in(
    done: Seq<(Address, U256)>,
    members: Seq<(String, JsonValue)>,
    field: Field,
) -> Result<Seq<(Address, U256)>, DecodeError>
    decreases members.len(),
{
    if members.len() == 0 {
        Ok(done)
    } else {
        match (identifier_of_text::<20>(members[0].0@), amount_in(members[0].1)) {
            (Some(token), Some(price)) => price_entries_in(
                with_price(done, ByteArray(token), price),
                members.drop_first(),
                field,
            ),
            _ => Err(invalid(field)),
        }
    }
}

/// The price map that the member `key` of an object holds.
pub open spec fn prices_member(
    members: Seq<(String, JsonValue)>,
    key: Seq<char>,
    field: Field,
) -> Result<Seq<(Address, U256)>, DecodeError> {
    match member(members, key) {
        None => Err(missing(field)),
        Some(JsonValue::Object(entries)) => price_entries_in(Seq::empty(), entries@, field),
        Some(_) => Err(invalid(field)),
    }
}

/// The whole number that the member `key` of an object holds.
pub open spec fn u64_member(members: Seq<(String, JsonValue)>, key: Seq<char>, field: Field)
    -> Result<u64, DecodeError> {
    match member(members, key) {
        None => Err(missing(field)),
        Some(JsonValue::Number(JsonNumber::PosInt(n))) => Ok(n),
        Some(_) => Err(invalid(field)),
    }
}

/// The items of the array that the member `key` of an object holds.
pub open spec fn array_member(members: Seq<(String, JsonValue)>, key: Seq<char>, field: Field)
    -> Result<Seq<JsonValue>, DecodeError> {
    match member(members, key) {
        None => Err(missing(field)),
        Some(JsonValue::Array(items)) => Ok(items@),
        Some(_) => Err(invalid(field)),
    }
}

/// A key that names a score: it starts with `score`.
pub open spec fn is_score_key(key: Seq<char>) -> bool {
    let bytes = encode_utf8(key);
    &&& bytes.len() >= 5
    &&& bytes[0] == 115u8
    &&& bytes[1] == 99u8
    &&& bytes[2] == 111u8
    &&& bytes[3] == 114u8
    &&& bytes[4] == 101u8
}

/// The score that a member with the key `key` and the amount `amount` is:
/// the key says who computed it.
pub open spec fn score_of_key(key: Seq<char>, amount: U256) -> Option<Score> {
    if key == "score"@ {
        Some(Score::Solver(amount))
    } else if key == "scoreProtocol"@ {
        Some(Score::Protocol(amount))
    } else if key == "scoreProtocolWithSolverRisk"@ {
        Some(Score::ProtocolWithSolverRisk(amount))
    } else if key == "scoreDiscounted"@ {
        Some(Score::Discounted(amount))
    } else {
        None
    }
}

/// The score that the members of a solution hold. The first member whose key
/// starts with `score` decides: its key must be one of the four that name a
/// variant and its value an amount, else the document is in error. Without
/// such a member the solution has no score.
pub open spec fn score_in(members: Seq<(String, JsonValue)>) -> Result<Option<Score>, DecodeError>
    decreases members.len(),
{
    if members.len() == 0 {
        Ok(None)
    } else if is_score_key(members[0].0@) {
        match amount_in(members[0].1) {
            Some(amount) => match score_of_key(members[0].0@, amount) {
                Some(score) => Ok(Some(score)),
                None => Err(invalid(Field::Score)),
            },
            None => Err(invalid(Field::Score)),
        }
    } else {
        score_in(members.drop_first())
    }
}

/// A key that starts with `score` and is none of the four that name a
/// variant fails the document: where it is the first member of a solution
/// whose key starts with `score`, the solution has no score and no default in
/// its place, but an error.
pub proof fn lemma_unrecognized_score_fails(members: Seq<(String, JsonValue)>, place: int)
    requires
        0 <= place < members.len(),
        forall|i: int| 0 <= i < place ==> !is_score_key(#[trigger] members[i].0@),
        is_score_key(members[place].0@),
        members[place].0@ != "score"@,
        members[place].0@ != "scoreProtocol"@,
        members[place].0@ != "scoreProtocolWithSolverRisk"@,
        members[place].0@ != "scoreDiscounted"@,
    ensures
        score_in(members) == Err::<Option<Score>, DecodeError>(invalid(Field::Score)),
    decreases place,
{
    if place > 0 {
        let rest = members.drop_first();
        assert(!is_score_key(members[0].0@));
        assert forall|i: int| 0 <= i < place - 1 implies !is_score_key(#[trigger] rest[i].0@) by {
            assert(rest[i] == members[i + 1]);
        }
        lemma_unrecognized_score_fails(rest, place - 1);
    }
}

/// The address whose bytes are all zero.
pub open spec fn zero_address() -> Address {
    ByteArray(array_of::<20>(Seq::new(20, |i: int| 0u8)))
}

/// The solver's name that the members of a solution hold.
pub open spec fn solver_in(members: Seq<(String, JsonValue)>) -> Result<Seq<char>, DecodeError> {
    match member(members, "solver"@) {
        None => Err(missing(Field::Solver)),
        Some(JsonValue::String(name)) => Ok(name@),
        Some(_) => Err(invalid(Field::Solver)),
    }
}

/// The solver's address that the members of a solution hold; all zero where
/// they hold none.
pub open spec fn solver_address_in(members: Seq<(String, JsonValue)>) -> Result<
    Address,
    DecodeError,
> {
    match member(members, "solverAddress"@) {
        None => Ok(zero_address()),
        Some(JsonValue::String(text)) => match identifier_of_text::<20>(text@) {
            Some(bytes) => Ok(ByteArray(bytes)),
            None => Err(invalid(Field::SolverAddress)),
        },
        Some(_) => Err(invalid(Field::SolverAddress)),
    }
}

/// The rank that the members of a solution hold; 0 where they hold none.
pub open spec fn ranking_in(members: Seq<(String, JsonValue)>) -> Result<usize, DecodeError> {
    match member(members, "ranking"@) {
        None => Ok(0),
        Some(JsonValue::Number(JsonNumber::PosInt(n))) => if n <= usize::MAX {
            Ok(n as usize)
        } else {
            Err(invalid(Field::Ranking))
        },
        Some(_) => Err(invalid(Field::Ranking)),
    }
}

/// The solution that a JSON value holds. Members that the record does not
/// know are passed over.
pub open spec fn settlement_in(value: JsonValue) -> Result<SettlementView, DecodeError> {
    match value {
        JsonValue::Object(entries) => {
            let members = entries@;
            match solver_in(members) {
                Err(e) => Err(e),
                Ok(solver) => match solver_address_in(members) {
                    Err(e) => Err(e),
                    Ok(solver_address) => match score_in(members) {
                        Err(e) => Err(e),
                        Ok(score) => match ranking_in(members) {
                            Err(e) => Err(e),
                            Ok(ranking) => match prices_member(
                                members,
                                "clearingPrices"@,
                                Field::ClearingPrices,
                            ) {
                                Err(e) => Err(e),
                                Ok(clearing_prices) => match array_member(
                                    members,
                                    "orders"@,
                                    Field::SolutionOrders,
                                ) {
                                    Err(e) => Err(e),
                                    Ok(items) => match orders_in(Seq::empty(), items) {
                                        Err(e) => Err(e),
                                        Ok(orders) => Ok(
                                            SettlementView {
                                                solver,
                                                solver_address,
                                                score,
                                                ranking,
                                                clearing_prices,
                                                orders,
                                            },
                                        ),
                                    },
                                },
                            },
                        },
                    },
                },
            }
        },
        _ => Err(invalid(Field::Solutions)),
    }
}

/// `done` followed by the solutions that the JSON values `items` hold.
pub open spec fn settlements_in(done: Seq<SettlementView>, items: Seq<JsonValue>) -> Result<
    Seq<SettlementView>,
    DecodeError,
>
    decreases items.len(),
{
    if items.len() == 0 {
        Ok(done)
    } else {
        match settlement_in(items[0]) {
            Ok(settlement) => settlements_in(done.push(settlement), items.drop_first()),
            Err(e) => Err(e),
        }
    }
}

/// The orders and the prices of the auction that the members of a record
/// hold.
pub open spec fn auction_in(members: Seq<(String, JsonValue)>) -> Result<
    (Seq<OrderUid>, Seq<(Address, U256)>),
    DecodeError,
> {
    match member(members, "auction"@) {
        None => Err(missing(Field::Auction)),
        Some(JsonValue::Object(entries)) => match array_member(
            entries@,
            "orders"@,
            Field::AuctionOrders,
        ) {
            Err(e) => Err(e),
            Ok(items) => match uids_in(Seq::empty(), items) {
                Err(e) => Err(e),
                Ok(orders) => match prices_member(entries@, "prices"@, Field::AuctionPrices) {
                    Err(e) => Err(e),
                    Ok(prices) => Ok((orders, prices)),
                },
            },
        },
        Some(_) => Err(invalid(Field::Auction)),
    }
}

/// The record of a competition that a JSON document holds, or the first part
/// in which the document fails. The record must be an object with the two
/// blocks, the auction and the solutions; members that the record does not
/// know are passed over.
pub open spec fn competition_in(value: JsonValue) -> Result<CompetitionView, DecodeError> {
    match value {
        JsonValue::Object(entries) => {
            let members = entries@;
            match u64_member(members, "auctionStartBlock"@, Field::AuctionStartBlock) {
                Err(e) => Err(e),
                Ok(auction_start_block) => match u64_member(
                    members,
                    "competitionSimulationBlock"@,
                    Field::CompetitionSimulationBlock,
                ) {
                    Err(e) => Err(e),
                    Ok(competition_simulation_block) => match auction_in(members) {
                        Err(e) => Err(e),
                        Ok(auction) => match array_member(
                            members,
                            "solutions"@,
                            Field::Solutions,
                        ) {
                            Err(e) => Err(e),
                            Ok(items) => match settlements_in(Seq::empty(), items) {
                                Err(e) => Err(e),
                                Ok(solutions) => Ok(
                                    CompetitionView {
                                        auction_start_block,
                                        competition_simulation_block,
                                        orders: auction.0,
                                        prices: auction.1,
                                        solutions,
                                    },
                                ),
                            },
                        },
                    },
                }
            }
        },
        _ => Err(invalid(Field::Record)),
    }
}

/// The error of a part that cannot be read.
fn invalid_part(field: Field) -> (r: DecodeError)
    ensures
        r == invalid(field),
{
    DecodeError { field, problem: Problem::Invalid }
}

/// The error of a part that the document does not have.
fn missing_part(field: Field) -> (r: DecodeError)
    ensures
        r == missing(field),
{
    DecodeError { field, problem: Problem::Missing }
}

/// Reads the amount that a JSON value holds.
fn read_amount(value: &JsonValue) -> (r: Option<U256>)
    ensures
        r == amount_in(*value),
{
    match value {
        JsonValue::String(text) => {
            let r = parse_hex_or_decimal(text.as_str());
            proof {
                if let Some(amount) = r {
                    lemma_u256_of(amount);
                }
            }
            r
        },
        _ => None,
    }
}

/// Reads an identifier of `N` bytes from its printed form.
fn read_identifier<const N: usize>(text: &str) -> (r: Option<[u8; N]>)
    ensures
        r == identifier_of_text::<N>(text@),
{
    match ByteArray::<N>::from_hex_string(text) {
        Ok(id) => {
            proof {
                lemma_array_of(id.0);
            }
            Some(id.0)
        },
        Err(_) => None,
    }
}

/// Reads the amount that the member `key` of an object holds.
fn read_amount_member(members: &Vec<(String, JsonValue)>, key: &str) -> (r: Option<U256>)
    ensures
        r == amount_member(members@, key@),
{
    match get_member(members, key) {
        Some(value) => read_amount(value),
        None => None,
    }
}

/// Reads the order id that a JSON value holds.
fn read_uid(value: &JsonValue) -> (r: Option<OrderUid>)
    ensures
        r == uid_in(*value),
{
    match value {
        JsonValue::String(text) => match read_identifier::<56>(text.as_str()) {
            Some(bytes) => Some(OrderUid(bytes)),
            None => None,
        },
        _ => None,
    }
}

/// Reads the order id that the member `id` of an object holds.
fn read_uid_member(members: &Vec<(String, JsonValue)>) -> (r: Option<OrderUid>)
    ensures
        r == uid_member(members@),
{
    match get_member(members, "id") {
        Some(value) => read_uid(value),
        None => None,
    }
}

/// Reads what a solution did with one order.
fn read_order(value: &JsonValue) -> (r: Result<Order, DecodeError>)
    ensures
        r == order_in(*value),
{
    match value {
        JsonValue::Object(members) => {
            let id = read_uid_member(members);
            let sell_amount = read_amount_member(members, "sellAmount");
            let buy_amount = read_amount_member(members, "buyAmount");
            match (id, sell_amount, buy_amount) {
                (Some(id), Some(sell_amount), Some(buy_amount)) => {
                    return Ok(Order::Colocated { id, sell_amount, buy_amount });
                },
                _ => {},
            }
            match (id, read_amount_member(members, "executedAmount")) {
                (Some(id), Some(executed_amount)) => Ok(Order::Legacy { id, executed_amount }),
                _ => Err(invalid_part(Field::OrderExecution)),
            }
        },
        _ => Err(invalid_part(Field::OrderExecution)),
    }
}

/// Reads what a solution did with each of its orders.
fn read_orders(items: &Vec<JsonValue>) -> (r: Result<Vec<Order>, DecodeError>)
    ensures
        match r {
            Ok(orders) => orders_in(Seq::empty(), items@) == Ok::<Seq<Order>, DecodeError>(
                orders@,
            ),
            Err(e) => orders_in(Seq::empty(), items@) == Err::<Seq<Order>, DecodeError>(e),
        },
{
    let mut out: Vec<Order> = Vec::new();
    let mut i: usize = 0;
    assert(items@.skip(0) =~= items@);
    while i < items.len()
        invariant
            i <= items@.len(),
            orders_in(Seq::empty(), items@) == orders_in(out@, items@.skip(i as int)),
        decreases items@.len() - i,
    {
        let ghost rest = items@.skip(i as int);
        assert(rest[0] == items@[i as int]);
        assert(rest.drop_first() =~= items@.skip(i as int + 1));
        match read_order(&items[i]) {
            Ok(order) => {
                out.push(order);
            },
            Err(e) => {
                return Err(e);
            },
        }
        i += 1;
    }
    Ok(out)
}

/// Reads the order ids of an auction.
fn read_uids(items: &Vec<JsonValue>) -> (r: Result<Vec<OrderUid>, DecodeError>)
    ensures
        match r {
            Ok(uids) => uids_in(Seq::empty(), items@) == Ok::<Seq<OrderUid>, DecodeError>(uids@),
            Err(e) => uids_in(Seq::empty(), items@) == Err::<Seq<OrderUid>, DecodeError>(e),
        },
{
    let mut out: Vec<OrderUid> = Vec::new();
    let mut i: usize = 0;
    assert(items@.skip(0) =~= items@);
    while i < items.len()
        invariant
            i <= items@.len(),
            uids_in(Seq::empty(), items@) == uids_in(out@, items@.skip(i as int)),
        decreases items@.len() - i,
    {
        let ghost rest = items@.skip(i as int);
        assert(rest[0] == items@[i as int]);
        assert(rest.drop_first() =~= items@.skip(i as int + 1));
        match read_uid(&items[i]) {
            Some(uid) => {
                out.push(uid);
            },
            None => {
                return Err(invalid_part(Field::AuctionOrders));
            },
        }
        i += 1;
    }
    Ok(out)
}

/// Reads the price map that the member `key` of an object holds.
fn read_prices(members: &Vec<(String, JsonValue)>, key: &str, field: Field) -> (r: Result<
    PriceMap,
    DecodeError,
>)
    ensures
        match r {
            Ok(prices) => prices.wf() && prices_member(members@, key@, field) == Ok::<
                Seq<(Address, U256)>,
                DecodeError,
            >(prices.entries@),
            Err(e) => prices_member(members@, key@, field) == Err::<
                Seq<(Address, U256)>,
                DecodeError,
            >(e),
        },
{
    let entries = match get_member(members, key) {
        None => {
            return Err(missing_part(field));
        },
        Some(JsonValue::Object(entries)) => entries,
        Some(_) => {
            return Err(invalid_part(field));
        },
    };
    let mut out = PriceMap::new();
    let mut i: usize = 0;
    assert(entries@.skip(0) =~= entries@);
    assert(out.entries@ =~= Seq::empty());
    while i < entries.len()
        invariant
            i <= entries@.len(),
            out.wf(),
            member(members@, key@) == Some(JsonValue::Object(*entries)),
            price_entries_in(Seq::empty(), entries@, field) == price_entries_in(
                out.entries@,
                entries@.skip(i as int),
                field,
            ),
        decreases entries@.len() - i,
    {
        let ghost rest = entries@.skip(i as int);
        assert(rest[0] == entries@[i as int]);
        assert(rest.drop_first() =~= entries@.skip(i as int + 1));
        let token = read_identifier::<20>(entries[i].0.as_str());
        let price = read_amount(&entries[i].1);
        match (token, price) {
            (Some(token), Some(price)) => {
                out.insert(ByteArray(token), price);
            },
            _ => {
                return Err(invalid_part(field));
            },
        }
        i += 1;
    }
    Ok(out)
}

/// Reads the whole number that the member `key` of an object holds.
fn read_u64(members: &Vec<(String, JsonValue)>, key: &str, field: Field) -> (r: Result<
    u64,
    DecodeError,
>)
    ensures
        r == u64_member(members@, key@, field),
{
    match get_member(members, key) {
        None => Err(missing_part(field)),
        Some(JsonValue::Number(JsonNumber::PosInt(n))) => Ok(*n),
        Some(_) => Err(invalid_part(field)),
    }
}

/// Reads the array that the member `key` of an object holds.
fn read_array<'a>(members: &'a Vec<(String, JsonValue)>, key: &str, field: Field) -> (r: Result<
    &'a Vec<JsonValue>,
    DecodeError,
>)
    ensures
        match r {
            Ok(items) => array_member(members@, key@, field) == Ok::<Seq<JsonValue>, DecodeError>(
                items@,
            ),
            Err(e) => array_member(members@, key@, field) == Err::<Seq<JsonValue>, DecodeError>(
                e,
            ),
        },
{
    match get_member(members, key) {
        None => Err(missing_part(field)),
        Some(JsonValue::Array(items)) => Ok(items),
        Some(_) => Err(invalid_part(field)),
    }
}

/// The score that a member with the key `key` and the amount `amount` is.
fn score_for(key: &String, amount: U256) -> (r: Option<Score>)
    ensures
        r == score_of_key(key@, amount),
{
    if *key == String::from_str("score") {
        Some(Score::Solver(amount))
    } else if *key == String::from_str("scoreProtocol") {
        Some(Score::Protocol(amount))
    } else if *key == String::from_str("scoreProtocolWithSolverRisk") {
        Some(Score::ProtocolWithSolverRisk(amount))
    } else if *key == String::from_str("scoreDiscounted") {
        Some(Score::Discounted(amount))
    } else {
        None
    }
}

/// Reads the score that the members of a solution hold.
fn read_score(members: &Vec<(String, JsonValue)>) -> (r: Result<Option<Score>, DecodeError>)
    ensures
        r == score_in(members@),
{
    let mut i: usize = 0;
    assert(members@.skip(0) =~= members@);
    while i < members.len()
        invariant
            i <= members@.len(),
            score_in(members@) == score_in(members@.skip(i as int)),
        decreases members@.len() - i,
    {
        let ghost rest = members@.skip(i as int);
        assert(rest[0] == members@[i as int]);
        assert(rest.drop_first() =~= members@.skip(i as int + 1));
        let key = &members[i].0;
        let bytes = key.as_str().as_bytes();
        if bytes.len() >= 5 && bytes[0] == 115u8 && bytes[1] == 99u8 && bytes[2] == 111u8
            && bytes[3] == 114u8 && bytes[4] == 101u8 {
            return match read_amount(&members[i].1) {
                Some(amount) => match score_for(key, amount) {
                    Some(score) => Ok(Some(score)),
                    None => Err(invalid_part(Field::Score)),
                },
                None => Err(invalid_part(Field::Score)),
            };
        }
        i += 1;
    }
    Ok(None)
}

/// Reads the solver's address that the members of a solution hold.
fn read_solver_address(members: &Vec<(String, JsonValue)>) -> (r: Result<Address, DecodeError>)
    ensures
        r == solver_address_in(members@),
{
    match get_member(members, "solverAddress") {
        None => {
            let zero = ByteArray::<20>::default();
            proof {
                assert(zero.0@ =~= Seq::new(20, |i: int| 0u8));
                lemma_array_of(zero.0);
            }
            Ok(zero)
        },
        Some(JsonValue::String(text)) => match read_identifier::<20>(text.as_str()) {
            Some(bytes) => Ok(ByteArray(bytes)),
            None => Err(invalid_part(Field::SolverAddress)),
        },
        Some(_) => Err(invalid_part(Field::SolverAddress)),
    }
}

/// Reads the rank that the members of a solution hold.
fn read_ranking(members: &Vec<(String, JsonValue)>) -> (r: Result<usize, DecodeError>)
    ensures
        r == ranking_in(members@),
{
    match get_member(members, "ranking") {
        None => Ok(0),
        Some(JsonValue::Number(JsonNumber::PosInt(n))) => {
            if *n <= usize::MAX as u64 {
                Ok(*n as usize)
            } else {
                Err(invalid_part(Field::Ranking))
            }
        },
        Some(_) => Err(invalid_part(Field::Ranking)),
    }
}

/// Reads the solver's name that the members of a solution hold.
fn read_solver(members: &Vec<(String, JsonValue)>) -> (r: Result<String, DecodeError>)
    ensures
        match r {
            Ok(name) => solver_in(members@) == Ok::<Seq<char>, DecodeError>(name@),
            Err(e) => solver_in(members@) == Err::<Seq<char>, DecodeError>(e),
        },
{
    match get_member(members, "solver") {
        None => Err(missing_part(Field::Solver)),
        Some(JsonValue::String(name)) => Ok(name.clone()),
        Some(_) => Err(invalid_part(Field::Solver)),
    }
}

/// Reads the solution that a JSON value holds.
fn read_settlement(value: &JsonValue) -> (r: Result<SolverSettlement, DecodeError>)
    ensures
        match r {
            Ok(settlement) => settlement.clearing_prices.wf() && settlement_in(*value) == Ok::<
                SettlementView,
                DecodeError,
            >(settlement@),
            Err(e) => settlement_in(*value) == Err::<SettlementView, DecodeError>(e),
        },
{
    let members = match value {
        JsonValue::Object(members) => members,
        _ => {
            return Err(invalid_part(Field::Solutions));
        },
    };
    let solver = match read_solver(members) {
        Ok(solver) => solver,
        Err(e) => {
            return Err(e);
        },
    };
    let solver_address = match read_solver_address(members) {
        Ok(solver_address) => solver_address,
        Err(e) => {
            return Err(e);
        },
    };
    let score = match read_score(members) {
        Ok(score) => score,
        Err(e) => {
            return Err(e);
        },
    };
    let ranking = match read_ranking(members) {
        Ok(ranking) => ranking,
        Err(e) => {
            return Err(e);
        },
    };
    let clearing_prices = match read_prices(members, "clearingPrices", Field::ClearingPrices) {
        Ok(clearing_prices) => clearing_prices,
        Err(e) => {
            return Err(e);
        },
    };
    let items = match read_array(members, "orders", Field::SolutionOrders) {
        Ok(items) => items,
        Err(e) => {
            return Err(e);
        },
    };
    let orders = match read_orders(items) {
        Ok(orders) => orders,
        Err(e) => {
            return Err(e);
        },
    };
    Ok(SolverSettlement { solver, solver_address, score, ranking, clearing_prices, orders })
}

/// Reads the solutions of a competition.
fn read_settlements(items: &Vec<JsonValue>) -> (r: Result<Vec<SolverSettlement>, DecodeError>)
    ensures
        match r {
            Ok(solutions) => {
                &&& settlements_in(Seq::empty(), items@) == Ok::<
                    Seq<SettlementView>,
                    DecodeError,
                >(settlement_views(solutions@))
                &&& forall|i: int|
                    0 <= i < solutions@.len() ==> (#[trigger] solutions@[i]).clearing_prices.wf()
            },
            Err(e) => settlements_in(Seq::empty(), items@) == Err::<
                Seq<SettlementView>,
                DecodeError,
            >(e),
        },
{
    let mut out: Vec<SolverSettlement> = Vec::new();
    let mut i: usize = 0;
    assert(items@.skip(0) =~= items@);
    assert(settlement_views(out@) =~= Seq::empty());
    while i < items.len()
        invariant
            i <= items@.len(),
            settlements_in(Seq::empty(), items@) == settlements_in(
                settlement_views(out@),
                items@.skip(i as int),
            ),
            forall|j: int| 0 <= j < out@.len() ==> (#[trigger] out@[j]).clearing_prices.wf(),
        decreases items@.len() - i,
    {
        let ghost rest = items@.skip(i as int);
        let ghost before = out@;
        assert(rest[0] == items@[i as int]);
        assert(rest.drop_first() =~= items@.skip(i as int + 1));
        match read_settlement(&items[i]) {
            Ok(settlement) => {
                let ghost content = settlement@;
                out.push(settlement);
                assert(settlement_views(out@) =~= settlement_views(before).push(content));
            },
            Err(e) => {
                return Err(e);
            },
        }
        i += 1;
    }
    Ok(out)
}

/// Reads the auction that the members of a record hold.
fn read_auction(members: &Vec<(String, JsonValue)>) -> (r: Result<CompetitionAuction, DecodeError>)
    ensures
        match r {
            Ok(auction) => auction.prices.wf() && auction_in(members@) == Ok::<
                (Seq<OrderUid>, Seq<(Address, U256)>),
                DecodeError,
            >((auction.orders@, auction.prices.entries@)),
            Err(e) => auction_in(members@) == Err::<
                (Seq<OrderUid>, Seq<(Address, U256)>),
                DecodeError,
            >(e),
        },
{
    let entries = match get_member(members, "auction") {
        None => {
            return Err(missing_part(Field::Auction));
        },
        Some(JsonValue::Object(entries)) => entries,
        Some(_) => {
            return Err(invalid_part(Field::Auction));
        },
    };
    let items = match read_array(entries, "orders", Field::AuctionOrders) {
        Ok(items) => items,
        Err(e) => {
            return Err(e);
        },
    };
    let orders = match read_uids(items) {
        Ok(orders) => orders,
        Err(e) => {
            return Err(e);
        },
    };
    let prices = match read_prices(entries, "prices", Field::AuctionPrices) {
        Ok(prices) => prices,
        Err(e) => {
            return Err(e);
        },
    };
    Ok(CompetitionAuction { orders, prices })
}

/// The id of the auction that the members of a record hold; 0 where they
/// hold none.
pub open spec fn auction_id_in(members: Seq<(String, JsonValue)>) -> Result<i64, DecodeError> {
    match member(members, "auctionId"@) {
        None => Ok(0),
        Some(JsonValue::Number(JsonNumber::PosInt(n))) => if n <= i64::MAX {
            Ok(n as i64)
        } else {
            Err(invalid(Field::AuctionId))
        },
        Some(JsonValue::Number(JsonNumber::NegInt(n))) => Ok(n),
        Some(_) => Err(invalid(Field::AuctionId)),
    }
}

/// `done` followed by the transaction hashes that the JSON values `items`
/// hold: each must be a string, `0x` and 64 hex digits.
pub open spec fn hashes_in(done: Seq<ByteArray<32>>, items: Seq<JsonValue>) -> Result<
    Seq<ByteArray<32>>,
    DecodeError,
>
    decreases items.len(),
{
    if items.len() == 0 {
        Ok(done)
    } else {
        match items[0] {
            JsonValue::String(text) => match identifier_of_text::<32>(text@) {
                Some(bytes) => hashes_in(done.push(ByteArray(bytes)), items.drop_first()),
                None => Err(invalid(Field::TransactionHashes)),
            },
            _ => Err(invalid(Field::TransactionHashes)),
        }
    }
}

/// The record of a competition as the API returns it that a JSON document
/// holds: the members of the stored record, and beside them the id of the
/// auction and the hashes of its transactions.
pub open spec fn api_record_in(value: JsonValue) -> Result<ApiView, DecodeError> {
    match value {
        JsonValue::Object(entries) => match auction_id_in(entries@) {
            Err(e) => Err(e),
            Ok(auction_id) => match array_member(
                entries@,
                "transactionHashes"@,
                Field::TransactionHashes,
            ) {
                Err(e) => Err(e),
                Ok(items) => match hashes_in(Seq::empty(), items) {
                    Err(e) => Err(e),
                    Ok(transaction_hashes) => match competition_in(value) {
                        Err(e) => Err(e),
                        Ok(common) => Ok(ApiView { auction_id, transaction_hashes, common }),
                    },
                },
            },
        },
        _ => Err(invalid(Field::Record)),
    }
}

/// Reads the id of the auction that the members of a record hold.
fn read_auction_id(members: &Vec<(String, JsonValue)>) -> (r: Result<i64, DecodeError>)
    ensures
        r == auction_id_in(members@),
{
    match get_member(members, "auctionId") {
        None => Ok(0),
        Some(JsonValue::Number(JsonNumber::PosInt(n))) => {
            if *n <= i64::MAX as u64 {
                Ok(*n as i64)
            } else {
                Err(invalid_part(Field::AuctionId))
            }
        },
        Some(JsonValue::Number(JsonNumber::NegInt(n))) => Ok(*n),
        Some(_) => Err(invalid_part(Field::AuctionId)),
    }
}

/// Reads the hashes of the transactions of an auction.
fn read_hashes(items: &Vec<JsonValue>) -> (r: Result<Vec<ByteArray<32>>, DecodeError>)
    ensures
        match r {
            Ok(hashes) => hashes_in(Seq::empty(), items@) == Ok::<
                Seq<ByteArray<32>>,
                DecodeError,
            >(hashes@),
            Err(e) => hashes_in(Seq::empty(), items@) == Err::<Seq<ByteArray<32>>, DecodeError>(
                e,
            ),
        },
{
    let mut out: Vec<ByteArray<32>> = Vec::new();
    let mut i: usize = 0;
    assert(items@.skip(0) =~= items@);
    while i < items.len()
        invariant
            i <= items@.len(),
            hashes_in(Seq::empty(), items@) == hashes_in(out@, items@.skip(i as int)),
        decreases items@.len() - i,
    {
        let ghost rest = items@.skip(i as int);
        assert(rest[0] == items@[i as int]);
        assert(rest.drop_first() =~= items@.skip(i as int + 1));
        let hash = match &items[i] {
            JsonValue::String(text) => read_identifier::<32>(text.as_str()),
            _ => None,
        };
        match hash {
            Some(bytes) => {
                out.push(ByteArray(bytes));
            },
            None => {
                return Err(invalid_part(Field::TransactionHashes));
            },
        }
        i += 1;
    }
    Ok(out)
}

impl SolverCompetitionAPI {
    /// Reads the record of a competition as the API returns it from a JSON
    /// document.
    pub fn from_json(value: &JsonValue) -> (r: Result<Self, DecodeError>)
        ensures
            match r {
                Ok(record) => record.common.wf() && api_record_in(*value) == Ok::<
                    ApiView,
                    DecodeError,
                >(record@),
                Err(e) => api_record_in(*value) == Err::<ApiView, DecodeError>(e),
            },
    {
        let members = match value {
            JsonValue::Object(members) => members,
            _ => {
                return Err(invalid_part(Field::Record));
            },
        };
        let auction_id = match read_auction_id(members) {
            Ok(auction_id) => auction_id,
            Err(e) => {
                return Err(e);
            },
        };
        let items = match read_array(members, "transactionHashes", Field::TransactionHashes) {
            Ok(items) => items,
            Err(e) => {
                return Err(e);
            },
        };
        let transaction_hashes = match read_hashes(items) {
            Ok(transaction_hashes) => transaction_hashes,
            Err(e) => {
                return Err(e);
            },
        };
        match SolverCompetitionDB::from_json(value) {
            Ok(common) => Ok(SolverCompetitionAPI { auction_id, transaction_hashes, common }),
            Err(e) => Err(e),
        }
    }
}

impl SolverCompetitionDB {
    /// Reads the record of a competition from a JSON document.
    pub fn from_json(value: &JsonValue) -> (r: Result<Self, DecodeError>)
        ensures
            match r {
                Ok(competition) => competition.wf() && competition_in(*value) == Ok::<
                    CompetitionView,
                    DecodeError,
                >(competition@),
                Err(e) => competition_in(*value) == Err::<CompetitionView, DecodeError>(e),
            },
    {
        let members = match value {
            JsonValue::Object(members) => members,
            _ => {
                return Err(invalid_part(Field::Record));
            },
        };
        let auction_start_block = match read_u64(
            members,
            "auctionStartBlock",
            Field::AuctionStartBlock,
        ) {
            Ok(block) => block,
            Err(e) => {
                return Err(e);
            },
        };
        let competition_simulation_block = match read_u64(
            members,
            "competitionSimulationBlock",
            Field::CompetitionSimulationBlock,
        ) {
            Ok(block) => block,
            Err(e) => {
                return Err(e);
            },
        };
        let auction = match read_auction(members) {
            Ok(auction) => auction,
            Err(e) => {
                return Err(e);
            },
        };
        let items = match read_array(members, "solutions", Field::Solutions) {
            Ok(items) => items,
            Err(e) => {
                return Err(e);
            },
        };
        let solutions = match read_settlements(items) {
            Ok(solutions) => solutions,
            Err(e) => {
                return Err(e);
            },
        };
        Ok(
            SolverCompetitionDB {
                auction_start_block,
                competition_simulation_block,
                auction,
                solutions,
            },
        )
    }
}

} // verus!
