use auction_backfill::byte_array::{ByteArray, ByteArrayError, KeyOrder, ValueFormat};
use auction_backfill::hex_codec::HexError;

#[test]
fn binary_round_trip_keeps_the_bytes() {
    let id = ByteArray::<4>([0xde, 0xad, 0xbe, 0xef]);
    let wire = id.encode();
    assert_eq!(wire, vec![0xde, 0xad, 0xbe, 0xef]);
    assert_eq!(ByteArray::<4>::decode(ValueFormat::Binary, &wire), Ok(id));
}

#[test]
fn binary_of_another_length_is_rejected() {
    assert_eq!(
        ByteArray::<4>::decode(ValueFormat::Binary, &[1, 2, 3]),
        Err(ByteArrayError::WrongLength)
    );
    assert_eq!(
        ByteArray::<4>::decode(ValueFormat::Binary, &[1, 2, 3, 4, 5]),
        Err(ByteArrayError::WrongLength)
    );
    assert_eq!(
        ByteArray::<0>::decode(ValueFormat::Binary, &[]),
        Ok(ByteArray::<0>([]))
    );
}

#[test]
fn text_form_is_backslash_x_and_hex() {
    assert_eq!(
        ByteArray::<2>::decode(ValueFormat::Text, b"\\x0aF1"),
        Ok(ByteArray::<2>([0x0a, 0xf1]))
    );
    assert_eq!(
        ByteArray::<2>::decode(ValueFormat::Text, b"0x0af1"),
        Err(ByteArrayError::MissingPrefix)
    );
    assert_eq!(
        ByteArray::<2>::decode(ValueFormat::Text, b"\\"),
        Err(ByteArrayError::MissingPrefix)
    );
    assert_eq!(
        ByteArray::<2>::decode(ValueFormat::Text, b"\\x0af"),
        Err(ByteArrayError::Hex(HexError::OddLength))
    );
    assert_eq!(
        ByteArray::<2>::decode(ValueFormat::Text, b"\\x0af1ff"),
        Err(ByteArrayError::Hex(HexError::InvalidStringLength))
    );
    assert_eq!(
        ByteArray::<2>::decode(ValueFormat::Text, b"\\x0ag1"),
        Err(ByteArrayError::Hex(HexError::InvalidHexCharacter { c: 'g', index: 2 }))
    );
}

#[test]
fn printed_form_is_lowercase_hex_with_prefix() {
    let id = ByteArray::<3>([0x00, 0xAB, 0x7f]);
    assert_eq!(id.to_hex_string(), "0x00ab7f");
    assert_eq!(ByteArray::<0>([]).to_hex_string(), "0x");
}

#[test]
fn default_is_all_zero() {
    assert_eq!(ByteArray::<20>::default(), ByteArray::<20>([0u8; 20]));
}

#[test]
fn printed_form_reads_back() {
    let id = ByteArray::<3>([0x00, 0xAB, 0x7f]);
    assert_eq!(ByteArray::<3>::from_hex_string(&id.to_hex_string()), Ok(id));
    assert_eq!(ByteArray::<3>::from_hex_string("0x00Ab7F"), Ok(id));
}

#[test]
fn printed_form_needs_prefix_and_exact_length() {
    assert_eq!(
        ByteArray::<3>::from_hex_string("00ab7f"),
        Err(ByteArrayError::MissingPrefix)
    );
    assert_eq!(
        ByteArray::<3>::from_hex_string(""),
        Err(ByteArrayError::MissingPrefix)
    );
    assert_eq!(
        ByteArray::<3>::from_hex_string("0x00ab"),
        Err(ByteArrayError::Hex(HexError::InvalidStringLength))
    );
    assert_eq!(
        ByteArray::<3>::from_hex_string("0x00ab7"),
        Err(ByteArrayError::Hex(HexError::OddLength))
    );
    assert_eq!(
        ByteArray::<3>::from_hex_string("0x00ab7z"),
        Err(ByteArrayError::Hex(HexError::InvalidHexCharacter { c: 'z', index: 5 }))
    );
}

#[test]
fn order_of_identifiers_is_the_order_of_their_bytes() {
    let a = ByteArray::<3>([0, 1, 255]);
    let b = ByteArray::<3>([0, 2, 0]);
    assert_eq!(a.order(&b), KeyOrder::Before);
    assert_eq!(b.order(&a), KeyOrder::After);
    assert_eq!(a.order(&a), KeyOrder::Same);
    assert_eq!(ByteArray::<0>([]).order(&ByteArray::<0>([])), KeyOrder::Same);
}

#[test]
fn text_round_trip_of_every_byte_value() {
    let mut bytes = [0u8; 256];
    for (i, b) in bytes.iter_mut().enumerate() {
        *b = i as u8;
    }
    let id = ByteArray::<256>(bytes);
    let printed = id.to_hex_string();
    assert_eq!(printed.len(), 2 + 512);
    assert_eq!(ByteArray::<256>::from_hex_string(&printed), Ok(id));
    let mut wire = b"\\x".to_vec();
    wire.extend_from_slice(&printed.as_bytes()[2..]);
    assert_eq!(ByteArray::<256>::decode(ValueFormat::Text, &wire), Ok(id));
}
