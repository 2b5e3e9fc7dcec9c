//! Hexadecimal text: what it means for bytes to be written as hex digits, and
//! the two calls into the `hex` crate that the codecs rest on.

use vstd::prelude::*;

verus! {

/// Why a text was not accepted as the hexadecimal form of a byte string.
#[derive(Clone, Copy, Debug, PartialEq, Eq, Structural)]
pub enum HexError {
    /// The byte at `index` is no hex digit; `c` is that byte as a character.
    InvalidHexCharacter { c: char, index: usize },
    /// The text has an odd number of digits.
    OddLength,
    /// The text has an even number of digits, but not two per expected byte.
    InvalidStringLength,
}

/// The lowercase ASCII digit that stands for `n`, for `n` below 16.
pub open spec fn hex_digit(n: int) -> u8 {
    if n < 10 {
        (48 + n) as u8
    } else {
        (87 + n) as u8
    }
}

/// The number that the ASCII byte `c` stands for as a hex digit, in either
/// case, and `None` where it is no hex digit.
pub open spec fn hex_value(c: u8) -> Option<int> {
    if 48 <= c <= 57 {
        Some(c - 48)
    } else if 97 <= c <= 102 {
        Some(c - 87)
    } else if 65 <= c <= 70 {
        Some(c - 55)
    } else {
        None
    }
}

/// The lowercase hex form of `bytes`, as ASCII: two digits per byte, the high
/// nibble first.
pub open spec fn hex_text(bytes: Seq<u8>) -> Seq<u8> {
    Seq::new(
        2 * bytes.len(),
        |i: int|
            if i % 2 == 0 {
                hex_digit(bytes[i / 2] as int / 16)
            } else {
                hex_digit(bytes[i / 2] as int % 16)
            },
    )
}

/// ASCII bytes read as characters.
pub open spec fn ascii_chars(bytes: Seq<u8>) -> Seq<char> {
    Seq::new(bytes.len(), |i: int| bytes[i] as char)
}

/// Every byte of `text` is a hex digit.
pub open spec fn all_hex(text: Seq<u8>) -> bool {
    forall|i: int| 0 <= i < text.len() ==> (#[trigger] hex_value(text[i])) is Some
}

/// `index` is the first place in `text` that holds no hex digit.
pub open spec fn first_non_hex(text: Seq<u8>, index: int) -> bool {
    &&& 0 <= index < text.len()
    &&& hex_value(text[index]) is None
    &&& forall|j: int| 0 <= j < index ==> (#[trigger] hex_value(text[j])) is Some
}

/// The byte that the digits at `2 * i` and `2 * i + 1` of `text` spell.
pub open spec fn hex_byte_at(text: Seq<u8>, i: int) -> int {
    hex_value(text[2 * i]).unwrap() * 16 + hex_value(text[2 * i + 1]).unwrap()
}

/// `text` is a hex form of `bytes`, in any mix of cases.
pub open spec fn hex_decodes_to(text: Seq<u8>, bytes: Seq<u8>) -> bool {
    &&& text.len() == 2 * bytes.len()
    &&& all_hex(text)
    &&& forall|i: int| 0 <= i < bytes.len() ==> (#[trigger] bytes[i]) == hex_byte_at(text, i)
}

/// Calls `hex::encode`. Trusted: the result is the lowercase hex form of
/// `data`, two ASCII digits per byte.
#[verifier::external_body]
pub(crate) fn encode_lower(data: &[u8]) -> (s: String)
    ensures
        s@ == ascii_chars(hex_text(data@)),
{
    hex::encode(data)
}

/// Calls `hex::decode_to_slice` on a fresh array of `N` bytes. Trusted: the
/// call succeeds exactly on a text of `2 * N` hex digits and then yields the
/// bytes they spell; it reports an odd length first, then a length that is
/// not `2 * N`, then the first byte that is no hex digit.
#[verifier::external_body]
pub(crate) fn decode_to_array<const N: usize>(text: &[u8]) -> (r: Result<[u8; N], HexError>)
    ensures
        match r {
            Ok(out) => hex_decodes_to(text@, out@),
            Err(HexError::OddLength) => text@.len() % 2 == 1,
            Err(HexError::InvalidStringLength) => text@.len() % 2 == 0 && text@.len() / 2 != N,
            Err(HexError::InvalidHexCharacter { c, index }) => {
                &&& text@.len() == 2 * N
                &&& first_non_hex(text@, index as int)
                &&& c == text@[index as int] as char
            },
        },
{
    let mut out = [0u8; N];
    match hex::decode_to_slice(text, &mut out) {
        Ok(()) => Ok(out),
        Err(hex::FromHexError::InvalidHexCharacter { c, index }) => Err(
            HexError::InvalidHexCharacter { c, index },
        ),
        Err(hex::FromHexError::OddLength) => Err(HexError::OddLength),
        Err(hex::FromHexError::InvalidStringLength) => Err(HexError::InvalidStringLength),
    }
}

/// What decoding `text` into `n` bytes gives: the bytes, or the first reason
/// against it.
pub open spec fn hex_decode(text: Seq<u8>, n: nat) -> Result<Seq<u8>, HexError> {
    if text.len() % 2 == 1 {
        Err(HexError::OddLength)
    } else if text.len() / 2 != n {
        Err(HexError::InvalidStringLength)
    } else if !all_hex(text) {
        let index = choose|i: int| first_non_hex(text, i);
        Err(HexError::InvalidHexCharacter { c: text[index] as char, index: index as usize })
    } else {
        Ok(Seq::new(n, |i: int| hex_byte_at(text, i) as u8))
    }
}

/// Decodes `text`, which must hold `2 * N` hex digits in any mix of cases,
/// into `N` bytes.
pub fn decode_hex<const N: usize>(text: &[u8]) -> (r: Result<[u8; N], HexError>)
    ensures
        match r {
            Ok(out) => hex_decode(text@, N as nat) == Ok::<Seq<u8>, HexError>(out@),
            Err(e) => hex_decode(text@, N as nat) == Err::<Seq<u8>, HexError>(e),
        },
{
    let r = decode_to_array::<N>(text);
    proof {
        match r {
            Ok(out) => {
                assert(out@ =~= Seq::new(N as nat, |i: int| hex_byte_at(text@, i) as u8));
            },
            Err(HexError::InvalidHexCharacter { c, index }) => {
                assert(hex_value(text@[index as int]) is None);
                let chosen = choose|i: int| first_non_hex(text@, i);
                assert(first_non_hex(text@, chosen));
                assert(chosen == index) by {
                    if chosen < index {
                        assert(hex_value(text@[chosen]) is Some);
                    } else if index < chosen {
                        assert(hex_value(text@[index as int]) is Some);
                    }
                }
            },
            Err(_) => {},
        }
    }
    r
}

/// Every byte string is what its own lowercase hex form decodes to.
pub proof fn lemma_hex_round_trip(bytes: Seq<u8>)
    ensures
        hex_decode(hex_text(bytes), bytes.len()) == Ok::<Seq<u8>, HexError>(bytes),
{
    let text = hex_text(bytes);
    assert forall|i: int| 0 <= i < text.len() implies (#[trigger] hex_value(text[i])) is Some by {
        let b = bytes[i / 2] as int;
        assert(0 <= b / 16 < 16 && 0 <= b % 16 < 16);
    }
    assert forall|i: int| 0 <= i < bytes.len() implies hex_byte_at(text, i) as u8 == bytes[i] by {
        let b = bytes[i] as int;
        assert(text[2 * i] == hex_digit(b / 16));
        assert(text[2 * i + 1] == hex_digit(b % 16));
        assert(0 <= b / 16 < 16 && 0 <= b % 16 < 16);
        assert(b / 16 * 16 + b % 16 == b);
    }
    assert(Seq::new(bytes.len(), |i: int| hex_byte_at(text, i) as u8) =~= bytes);
}

} // verus!
