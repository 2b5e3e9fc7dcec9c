use auction_backfill::byte_array::{Address, ByteArray};
use auction_backfill::price_map::PriceMap;
use auction_backfill::u256::U256;

fn token(last: u8) -> Address {
    let mut bytes = [0u8; 20];
    bytes[19] = last;
    ByteArray(bytes)
}

fn amount(n: u128) -> U256 {
    let mut bytes = [0u8; 32];
    bytes[16..].copy_from_slice(&n.to_be_bytes());
    U256(bytes)
}

#[test]
fn entries_are_kept_in_the_order_of_the_addresses() {
    let mut map = PriceMap::new();
    map.insert(token(9), amount(90));
    map.insert(token(1), amount(10));
    map.insert(token(5), amount(50));
    assert_eq!(map.len(), 3);
    assert_eq!(
        map.entries,
        vec![(token(1), amount(10)), (token(5), amount(50)), (token(9), amount(90))]
    );
    let mut high = [0u8; 20];
    high[0] = 1;
    map.insert(ByteArray(high), amount(7));
    assert_eq!(map.entries[3], (ByteArray(high), amount(7)));
}

#[test]
fn a_second_price_for_a_token_takes_the_place_of_the_first() {
    let mut map = PriceMap::new();
    map.insert(token(1), amount(10));
    map.insert(token(2), amount(20));
    map.insert(token(1), amount(11));
    assert_eq!(map.entries, vec![(token(1), amount(11)), (token(2), amount(20))]);
}

#[test]
fn get_finds_what_was_inserted_and_nothing_else() {
    let mut map = PriceMap::new();
    assert_eq!(map.get(&token(1)), None);
    assert_eq!(map.len(), 0);
    map.insert(token(3), amount(30));
    map.insert(token(1), amount(10));
    assert_eq!(map.get(&token(1)), Some(amount(10)));
    assert_eq!(map.get(&token(3)), Some(amount(30)));
    assert_eq!(map.get(&token(2)), None);
    assert_eq!(map.get(&token(4)), None);
    assert_eq!(map.get(&token(0)), None);
}
