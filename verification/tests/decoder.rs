use auction_backfill::byte_array::{Address, ByteArray, ByteArrayError};
use auction_backfill::database_solver_competition::RichSolverCompetition;
use auction_backfill::decimal::big_decimal_to_u256;
use auction_backfill::hex_codec::HexError;
use auction_backfill::json::{get_member, JsonNumber, JsonValue};
use auction_backfill::run::{
    historic_auction, populate_historic_auction, NormalizeError, PopulateError,
};
use auction_backfill::solver_competition_api::{
    DecodeError, Field, Order, OrderUid, OrderUidError, Problem, Score, SolverCompetitionAPI,
    SolverCompetitionDB,
};
use auction_backfill::u256::U256;

fn amount(n: u128) -> U256 {
    let mut bytes = [0u8; 32];
    bytes[16..].copy_from_slice(&n.to_be_bytes());
    U256(bytes)
}

fn token(last: u8) -> Address {
    let mut bytes = [0u8; 20];
    bytes[19] = last;
    ByteArray(bytes)
}

fn uid(fill: u8) -> OrderUid {
    OrderUid([fill; 56])
}

fn text(s: &str) -> JsonValue {
    JsonValue::String(String::from(s))
}

fn number(n: u64) -> JsonValue {
    JsonValue::Number(JsonNumber::PosInt(n))
}

fn object(members: Vec<(&str, JsonValue)>) -> JsonValue {
    JsonValue::Object(members.into_iter().map(|(k, v)| (String::from(k), v)).collect())
}

fn invalid(field: Field) -> DecodeError {
    DecodeError { field, problem: Problem::Invalid }
}

fn missing(field: Field) -> DecodeError {
    DecodeError { field, problem: Problem::Missing }
}

fn solution(extra: Vec<(&str, JsonValue)>, orders: Vec<JsonValue>) -> JsonValue {
    let mut members = vec![
        ("solver", text("quasimodo")),
        ("clearingPrices", object(vec![])),
        ("orders", JsonValue::Array(orders)),
    ];
    members.extend(extra);
    object(members)
}

fn record(solutions: Vec<JsonValue>) -> JsonValue {
    let t1 = token(1).to_hex_string();
    let t9 = token(9).to_hex_string();
    object(vec![
        ("auctionStartBlock", number(15)),
        ("competitionSimulationBlock", number(16)),
        (
            "auction",
            object(vec![
                ("orders", JsonValue::Array(vec![uid(1).serialize(), uid(2).serialize()])),
                ("prices", object(vec![(t9.as_str(), text("0x64")), (t1.as_str(), text("1000"))])),
            ]),
        ),
        ("solutions", JsonValue::Array(solutions)),
        ("somethingElse", JsonValue::Bool(true)),
    ])
}

fn first_order(doc: JsonValue) -> Result<Order, DecodeError> {
    SolverCompetitionDB::from_json(&record(vec![solution(vec![], vec![doc])]))
        .map(|c| c.solutions[0].orders[0])
}

#[test]
fn sell_and_buy_amount_make_the_colocated_shape() {
    let id = uid(3).to_hex_string();
    let doc = object(vec![("id", text(&id)), ("sellAmount", text("12")), ("buyAmount", text("0xb"))]);
    assert_eq!(
        first_order(doc),
        Ok(Order::Colocated { id: uid(3), sell_amount: amount(12), buy_amount: amount(11) })
    );
}

#[test]
fn executed_amount_makes_the_legacy_shape() {
    let id = uid(3).to_hex_string();
    let doc = object(vec![("id", text(&id)), ("executedAmount", text("5"))]);
    assert_eq!(first_order(doc), Ok(Order::Legacy { id: uid(3), executed_amount: amount(5) }));
}

#[test]
fn all_three_amounts_make_the_colocated_shape() {
    let id = uid(3).to_hex_string();
    let doc = object(vec![
        ("executedAmount", text("5")),
        ("id", text(&id)),
        ("buyAmount", text("2")),
        ("sellAmount", text("1")),
    ]);
    assert_eq!(
        first_order(doc),
        Ok(Order::Colocated { id: uid(3), sell_amount: amount(1), buy_amount: amount(2) })
    );
}

#[test]
fn an_unreadable_sell_amount_falls_back_to_the_legacy_shape() {
    let id = uid(3).to_hex_string();
    let doc = object(vec![
        ("id", text(&id)),
        ("sellAmount", number(1)),
        ("buyAmount", text("2")),
        ("executedAmount", text("5")),
    ]);
    assert_eq!(first_order(doc), Ok(Order::Legacy { id: uid(3), executed_amount: amount(5) }));
}

#[test]
fn an_order_with_neither_shape_fails() {
    let id = uid(3).to_hex_string();
    assert_eq!(first_order(object(vec![("id", text(&id))])), Err(invalid(Field::OrderExecution)));
    assert_eq!(
        first_order(object(vec![("id", text(&id)), ("sellAmount", text("1"))])),
        Err(invalid(Field::OrderExecution))
    );
    assert_eq!(
        first_order(object(vec![("sellAmount", text("1")), ("buyAmount", text("1"))])),
        Err(invalid(Field::OrderExecution))
    );
    assert_eq!(
        first_order(object(vec![("id", text("0x00")), ("executedAmount", text("1"))])),
        Err(invalid(Field::OrderExecution))
    );
    assert_eq!(first_order(JsonValue::Null), Err(invalid(Field::OrderExecution)));
    assert_eq!(first_order(JsonValue::Array(vec![])), Err(invalid(Field::OrderExecution)));
}

fn score_of(extra: Vec<(&str, JsonValue)>) -> Result<Option<Score>, DecodeError> {
    SolverCompetitionDB::from_json(&record(vec![solution(extra, vec![])])).map(|c| c.solutions[0].score)
}

#[test]
fn the_key_of_the_score_says_who_computed_it() {
    assert_eq!(score_of(vec![("score", text("7"))]), Ok(Some(Score::Solver(amount(7)))));
    assert_eq!(score_of(vec![("scoreProtocol", text("0x7"))]), Ok(Some(Score::Protocol(amount(7)))));
    assert_eq!(
        score_of(vec![("scoreProtocolWithSolverRisk", text("8"))]),
        Ok(Some(Score::ProtocolWithSolverRisk(amount(8))))
    );
    assert_eq!(score_of(vec![("scoreDiscounted", text("9"))]), Ok(Some(Score::Discounted(amount(9)))));
    assert_eq!(score_of(vec![]), Ok(None));
    for s in [
        Score::Solver(amount(7)),
        Score::Protocol(amount(7)),
        Score::ProtocolWithSolverRisk(amount(7)),
        Score::Discounted(amount(7)),
    ] {
        assert_eq!(s.score(), amount(7));
    }
    assert_eq!(Score::default(), Score::Protocol(amount(0)));
}

#[test]
fn an_unrecognized_score_key_fails() {
    assert_eq!(score_of(vec![("scoreFancy", text("7"))]), Err(invalid(Field::Score)));
    assert_eq!(score_of(vec![("scores", text("7"))]), Err(invalid(Field::Score)));
    assert_eq!(score_of(vec![("score", number(7))]), Err(invalid(Field::Score)));
    assert_eq!(score_of(vec![("scoreProtocol", text("seven"))]), Err(invalid(Field::Score)));
    // A key that only resembles one is an unknown member like any other.
    assert_eq!(score_of(vec![("Score", text("7"))]), Ok(None));
    assert_eq!(score_of(vec![("scor", text("7"))]), Ok(None));
}

#[test]
fn a_whole_record_is_read() {
    let id = uid(4).to_hex_string();
    let t1 = token(1).to_hex_string();
    let t2 = token(2).to_hex_string();
    let address = token(77).to_hex_string();
    let full = object(vec![
        ("solver", text("naive")),
        ("solverAddress", text(&address)),
        ("scoreProtocol", text("123")),
        ("ranking", number(2)),
        ("clearingPrices", object(vec![(t2.as_str(), text("1")), (t1.as_str(), text("2"))])),
        ("orders", JsonValue::Array(vec![object(vec![("id", text(&id)), ("executedAmount", text("9"))])])),
        ("objectiveValue", JsonValue::Number(JsonNumber::Float)),
    ]);
    let c = SolverCompetitionDB::from_json(&record(vec![solution(vec![], vec![]), full])).unwrap();
    assert_eq!(c.auction_start_block, 15);
    assert_eq!(c.competition_simulation_block, 16);
    assert_eq!(c.auction.orders, vec![uid(1), uid(2)]);
    assert_eq!(
        c.auction.prices.entries,
        vec![(token(1), amount(1000)), (token(9), amount(100))]
    );
    assert_eq!(c.solutions.len(), 2);
    let plain = &c.solutions[0];
    assert_eq!(plain.solver, "quasimodo");
    assert_eq!(plain.solver_address, ByteArray([0u8; 20]));
    assert_eq!(plain.score, None);
    assert_eq!(plain.ranking, 0);
    assert_eq!(plain.clearing_prices.len(), 0);
    let last = &c.solutions[1];
    assert_eq!(last.solver, "naive");
    assert_eq!(last.solver_address, token(77));
    assert_eq!(last.score, Some(Score::Protocol(amount(123))));
    assert_eq!(last.ranking, 2);
    assert_eq!(last.clearing_prices.entries, vec![(token(1), amount(2)), (token(2), amount(1))]);
    assert_eq!(last.orders, vec![Order::Legacy { id: uid(4), executed_amount: amount(9) }]);
}

fn without(doc: JsonValue, key: &str) -> JsonValue {
    match doc {
        JsonValue::Object(members) => {
            JsonValue::Object(members.into_iter().filter(|(k, _)| k != key).collect())
        }
        other => other,
    }
}

fn with(doc: JsonValue, key: &str, value: JsonValue) -> JsonValue {
    match without(doc, key) {
        JsonValue::Object(mut members) => {
            members.push((String::from(key), value));
            JsonValue::Object(members)
        }
        other => other,
    }
}

#[test]
fn required_members_must_be_there() {
    let error = |doc: JsonValue| SolverCompetitionDB::from_json(&doc).unwrap_err();
    assert_eq!(error(JsonValue::Array(vec![])), invalid(Field::Record));
    assert_eq!(error(without(record(vec![]), "auctionStartBlock")), missing(Field::AuctionStartBlock));
    assert_eq!(
        error(without(record(vec![]), "competitionSimulationBlock")),
        missing(Field::CompetitionSimulationBlock)
    );
    assert_eq!(error(without(record(vec![]), "auction")), missing(Field::Auction));
    assert_eq!(error(without(record(vec![]), "solutions")), missing(Field::Solutions));
    assert_eq!(
        error(with(record(vec![]), "auction", object(vec![("prices", object(vec![]))]))),
        missing(Field::AuctionOrders)
    );
    assert_eq!(
        error(with(record(vec![]), "auction", object(vec![("orders", JsonValue::Array(vec![]))]))),
        missing(Field::AuctionPrices)
    );
    assert_eq!(error(record(vec![without(solution(vec![], vec![]), "solver")])), missing(Field::Solver));
    assert_eq!(
        error(record(vec![without(solution(vec![], vec![]), "clearingPrices")])),
        missing(Field::ClearingPrices)
    );
    assert_eq!(
        error(record(vec![without(solution(vec![], vec![]), "orders")])),
        missing(Field::SolutionOrders)
    );
}

#[test]
fn members_must_have_the_right_form() {
    let error = |doc: JsonValue| SolverCompetitionDB::from_json(&doc).unwrap_err();
    assert_eq!(
        error(with(record(vec![]), "auctionStartBlock", text("15"))),
        invalid(Field::AuctionStartBlock)
    );
    assert_eq!(
        error(with(record(vec![]), "auctionStartBlock", JsonValue::Number(JsonNumber::NegInt(-1)))),
        invalid(Field::AuctionStartBlock)
    );
    assert_eq!(
        error(with(record(vec![]), "competitionSimulationBlock", JsonValue::Number(JsonNumber::Float))),
        invalid(Field::CompetitionSimulationBlock)
    );
    assert_eq!(error(with(record(vec![]), "auction", JsonValue::Null)), invalid(Field::Auction));
    assert_eq!(error(with(record(vec![]), "solutions", object(vec![]))), invalid(Field::Solutions));
    assert_eq!(error(record(vec![JsonValue::Null])), invalid(Field::Solutions));
    let bad_orders = object(vec![
        ("orders", JsonValue::Array(vec![text("0x1234")])),
        ("prices", object(vec![])),
    ]);
    assert_eq!(error(with(record(vec![]), "auction", bad_orders)), invalid(Field::AuctionOrders));
    let t1 = token(1).to_hex_string();
    for (key, value) in [
        (t1.as_str(), number(5)),
        (t1.as_str(), text("five")),
        ("0x01", text("5")),
        (&t1[2..], text("5")),
    ] {
        let bad_prices = object(vec![
            ("orders", JsonValue::Array(vec![])),
            ("prices", object(vec![(key, value)])),
        ]);
        assert_eq!(error(with(record(vec![]), "auction", bad_prices)), invalid(Field::AuctionPrices));
    }
    assert_eq!(
        error(record(vec![solution(vec![("solverAddress", JsonValue::Null)], vec![])])),
        invalid(Field::SolverAddress)
    );
    assert_eq!(
        error(record(vec![solution(vec![("solverAddress", text("0x12"))], vec![])])),
        invalid(Field::SolverAddress)
    );
    assert_eq!(
        error(record(vec![solution(vec![("ranking", text("1"))], vec![])])),
        invalid(Field::Ranking)
    );
    assert_eq!(
        error(record(vec![with(solution(vec![], vec![]), "solver", number(1))])),
        invalid(Field::Solver)
    );
    assert_eq!(
        error(record(vec![with(solution(vec![], vec![]), "clearingPrices", JsonValue::Array(vec![]))])),
        invalid(Field::ClearingPrices)
    );
}

#[test]
fn a_token_that_occurs_twice_keeps_its_last_price() {
    let lower = token(0xab).to_hex_string();
    let upper = format!("0x{}", lower[2..].to_uppercase());
    let prices = object(vec![(lower.as_str(), text("1")), (upper.as_str(), text("2"))]);
    let auction = object(vec![("orders", JsonValue::Array(vec![])), ("prices", prices)]);
    let c = SolverCompetitionDB::from_json(&with(record(vec![]), "auction", auction)).unwrap();
    assert_eq!(c.auction.prices.entries, vec![(token(0xab), amount(2))]);
}

#[test]
fn the_first_member_with_a_key_counts() {
    let members = vec![
        (String::from("a"), number(1)),
        (String::from("b"), number(2)),
        (String::from("a"), number(3)),
    ];
    assert_eq!(get_member(&members, "a"), Some(&number(1)));
    assert_eq!(get_member(&members, "b"), Some(&number(2)));
    assert_eq!(get_member(&members, "c"), None);
    assert_eq!(get_member(&vec![], "a"), None);
}

#[test]
fn an_order_id_round_trips_through_json() {
    let mut bytes = [0u8; 56];
    for (i, b) in bytes.iter_mut().enumerate() {
        *b = (i * 5) as u8;
    }
    let id = OrderUid(bytes);
    let printed = id.to_hex_string();
    assert_eq!(printed.len(), 2 + 112);
    assert!(printed.starts_with("0x00050a0f"));
    assert_eq!(id.serialize(), text(&printed));
    assert_eq!(OrderUid::deserialize(&id.serialize()), Ok(id));
}

#[test]
fn an_order_id_must_be_a_prefixed_hex_string_of_56_bytes() {
    assert_eq!(OrderUid::deserialize(&number(1)), Err(OrderUidError::NotAString));
    assert_eq!(OrderUid::deserialize(&JsonValue::Null), Err(OrderUidError::NotAString));
    let digits = "ab".repeat(56);
    assert_eq!(
        OrderUid::deserialize(&text(&digits)),
        Err(OrderUidError::Malformed(ByteArrayError::MissingPrefix))
    );
    assert_eq!(
        OrderUid::deserialize(&text(&format!("0x{}", &digits[2..]))),
        Err(OrderUidError::Malformed(ByteArrayError::Hex(HexError::InvalidStringLength)))
    );
    assert_eq!(
        OrderUid::deserialize(&text(&format!("0x{}", &digits[1..]))),
        Err(OrderUidError::Malformed(ByteArrayError::Hex(HexError::OddLength)))
    );
    assert_eq!(
        OrderUid::deserialize(&text(&format!("0xg{}", &digits[1..]))),
        Err(OrderUidError::Malformed(ByteArrayError::Hex(HexError::InvalidHexCharacter {
            c: 'g',
            index: 0
        })))
    );
    assert_eq!(OrderUid::deserialize(&text(&format!("0x{}", digits.to_uppercase()))), Ok(uid(0xab)));
}

fn row(id: i64, json: JsonValue) -> RichSolverCompetition {
    RichSolverCompetition {
        id,
        json,
        deadline: 42,
        surplus_capturing_jit_order_owners: vec![token(5), token(4)],
    }
}

#[test]
fn a_competition_becomes_one_normalized_auction() {
    let auction = populate_historic_auction(&row(100, record(vec![]))).unwrap();
    assert_eq!(auction.id, 100);
    assert_eq!(auction.block, 15);
    assert_eq!(auction.deadline, 42);
    assert_eq!(auction.order_uids, vec![ByteArray([1u8; 56]), ByteArray([2u8; 56])]);
    assert_eq!(auction.price_tokens, vec![token(1), token(9)]);
    assert_eq!(auction.price_values.len(), 2);
    assert_eq!(big_decimal_to_u256(&auction.price_values[0]), Some(amount(1000)));
    assert_eq!(big_decimal_to_u256(&auction.price_values[1]), Some(amount(100)));
    assert!(auction.price_values.iter().all(|v| v.scale == 0 && !v.negative));
    assert_eq!(auction.surplus_capturing_jit_order_owners, vec![token(5), token(4)]);
    // The same row gives the same auction again.
    assert_eq!(populate_historic_auction(&row(100, record(vec![]))), Ok(auction));
}

#[test]
fn a_start_block_beyond_the_signed_range_is_an_error_of_the_row() {
    let limit = i64::MAX as u64;
    let fits = with(record(vec![]), "auctionStartBlock", number(limit));
    assert_eq!(populate_historic_auction(&row(1, fits)).unwrap().block, i64::MAX);
    let over = with(record(vec![]), "auctionStartBlock", number(limit + 1));
    assert_eq!(
        populate_historic_auction(&row(1, over)),
        Err(PopulateError::Normalize(NormalizeError::BlockOverflow))
    );
    let c = SolverCompetitionDB::from_json(&with(record(vec![]), "auctionStartBlock", number(u64::MAX)))
        .unwrap();
    assert_eq!(historic_auction(&row(1, JsonValue::Null), &c), Err(NormalizeError::BlockOverflow));
}

#[test]
fn a_document_that_is_no_record_is_an_error_of_the_row() {
    assert_eq!(
        populate_historic_auction(&row(3278851, JsonValue::Null)),
        Err(PopulateError::Decode(invalid(Field::Record)))
    );
    assert_eq!(
        populate_historic_auction(&row(1, without(record(vec![]), "auction"))),
        Err(PopulateError::Decode(missing(Field::Auction)))
    );
}

#[test]
fn the_record_of_the_api_has_an_auction_id_and_transaction_hashes() {
    let hash = ByteArray::<32>([0x5a; 32]).to_hex_string();
    let doc = with(
        with(record(vec![]), "auctionId", number(77)),
        "transactionHashes",
        JsonValue::Array(vec![text(&hash)]),
    );
    let api = SolverCompetitionAPI::from_json(&doc).unwrap();
    assert_eq!(api.auction_id, 77);
    assert_eq!(api.transaction_hashes, vec![ByteArray([0x5a; 32])]);
    assert_eq!(Ok(api.common), SolverCompetitionDB::from_json(&doc));

    let negative = with(doc, "auctionId", JsonValue::Number(JsonNumber::NegInt(-3)));
    assert_eq!(SolverCompetitionAPI::from_json(&negative).unwrap().auction_id, -3);
    let absent = without(negative, "auctionId");
    assert_eq!(SolverCompetitionAPI::from_json(&absent).unwrap().auction_id, 0);
}

#[test]
fn the_record_of_the_api_must_be_well_formed() {
    let error = |doc: JsonValue| SolverCompetitionAPI::from_json(&doc).unwrap_err();
    let good = with(record(vec![]), "transactionHashes", JsonValue::Array(vec![]));
    assert!(SolverCompetitionAPI::from_json(&good).is_ok());
    assert_eq!(error(JsonValue::Null), invalid(Field::Record));
    assert_eq!(error(record(vec![])), missing(Field::TransactionHashes));
    assert_eq!(
        error(with(record(vec![]), "transactionHashes", JsonValue::Array(vec![text("0x5a")]))),
        invalid(Field::TransactionHashes)
    );
    assert_eq!(
        error(with(record(vec![]), "transactionHashes", JsonValue::Array(vec![number(1)]))),
        invalid(Field::TransactionHashes)
    );
    for bad in [text("1"), number(u64::MAX), JsonValue::Number(JsonNumber::Float)] {
        assert_eq!(error(with(good_with_hashes(), "auctionId", bad)), invalid(Field::AuctionId));
    }
    assert_eq!(
        SolverCompetitionAPI::from_json(&with(good_with_hashes(), "auctionId", number(i64::MAX as u64)))
            .unwrap()
            .auction_id,
        i64::MAX
    );
    assert_eq!(error(without(good, "solutions")), missing(Field::Solutions));
}

fn good_with_hashes() -> JsonValue {
    with(record(vec![]), "transactionHashes", JsonValue::Array(vec![]))
}
