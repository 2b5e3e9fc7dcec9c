//! Identifiers of a fixed number of bytes, and their forms in the database:
//! the raw bytes of a prepared query, and the `\x` hex text of a raw one.

use crate::hex_codec::{
    ascii_chars, decode_hex, encode_lower, hex_decode, hex_text, lemma_hex_round_trip, HexError,
};
use crate::u256::{be_value, has_hex_prefix};
use vstd::prelude::*;
use vstd::slice::slice_subrange;
use vstd::string::{StringExecFns, StringSliceAdditionalSpecFns};
use vstd::utf8::{encode_utf8, is_ascii_chars, is_ascii_chars_encode_utf8};

verus! {

/// An identifier of exactly `N` bytes.
#[derive(Clone, Copy, Debug, Eq, PartialEq, Hash)]
pub struct ByteArray<const N: usize>(pub [u8; N]);

/// The address of a token or of an account.
pub type Address = ByteArray<20>;

/// The unique id of an order.
pub type OrderUid = ByteArray<56>;

/// How the database hands a value over.
#[derive(Clone, Copy, Debug, PartialEq, Eq, Structural)]
pub enum ValueFormat {
    /// The raw bytes, as a prepared query gets them.
    Binary,
    /// The text `\x` followed by hex digits, as a raw query gets it.
    Text,
}

/// Why a database value is no identifier of the expected size.
#[derive(Clone, Copy, Debug, PartialEq, Eq, Structural)]
pub enum ByteArrayError {
    /// A binary value that does not hold exactly the expected bytes.
    WrongLength,
    /// A text that does not start with its prefix: `\x` in a value of the
    /// database, `0x` in a printed form.
    MissingPrefix,
    /// A text value whose digits are not the hex form of the expected bytes.
    Hex(HexError),
}

/// How one identifier stands to another in the order of identifiers, which is
/// the order of their bytes read from the left.
#[derive(Clone, Copy, Debug, PartialEq, Eq, Structural)]
pub enum KeyOrder {
    /// The first comes before the second.
    Before,
    /// The two are the same identifier.
    Same,
    /// The first comes after the second.
    After,
}

/// The two bytes `\x` that open the text form.
pub open spec fn text_prefix() -> Seq<u8> {
    seq![92u8, 120u8]
}

/// What a database value decodes to as an identifier of `n` bytes.
pub open spec fn spec_decode(format: ValueFormat, value: Seq<u8>, n: nat) -> Result<
    Seq<u8>,
    ByteArrayError,
> {
    match format {
        ValueFormat::Binary => if value.len() == n {
            Ok(value)
        } else {
            Err(ByteArrayError::WrongLength)
        },
        ValueFormat::Text => if value.len() >= 2 && value.subrange(0, 2) == text_prefix() {
            match hex_decode(value.subrange(2, value.len() as int), n) {
                Ok(bytes) => Ok(bytes),
                Err(e) => Err(ByteArrayError::Hex(e)),
            }
        } else {
            Err(ByteArrayError::MissingPrefix)
        },
    }
}

/// The form in which an identifier with these bytes goes to the database.
pub open spec fn spec_encode(format: ValueFormat, bytes: Seq<u8>) -> Seq<u8> {
    match format {
        ValueFormat::Binary => bytes,
        ValueFormat::Text => text_prefix() + hex_text(bytes),
    }
}

/// The length of the form in which an identifier of `n` bytes goes to the
/// database.
pub open spec fn spec_encoded_len(format: ValueFormat, n: nat) -> nat {
    match format {
        ValueFormat::Binary => n,
        ValueFormat::Text => 2 * n + 2,
    }
}

/// The printed form of an identifier: `0x` and the lowercase hex digits.
pub open spec fn spec_hex_string(bytes: Seq<u8>) -> Seq<char> {
    seq!['0', 'x'] + ascii_chars(hex_text(bytes))
}

/// What the printed form `text`, as UTF-8, reads as an identifier of `n`
/// bytes: `0x` must open it, and `2 * n` hex digits in any mix of cases must
/// follow.
pub open spec fn spec_from_hex_string(text: Seq<u8>, n: nat) -> Result<Seq<u8>, ByteArrayError> {
    if has_hex_prefix(text) {
        match hex_decode(text.subrange(2, text.len() as int), n) {
            Ok(bytes) => Ok(bytes),
            Err(e) => Err(ByteArrayError::Hex(e)),
        }
    } else {
        Err(ByteArrayError::MissingPrefix)
    }
}

/// The array that holds `bytes`.
pub open spec fn array_of<const N: usize>(bytes: Seq<u8>) -> [u8; N] {
    choose|a: [u8; N]| a@ == bytes
}

/// The array that holds the bytes of an array is that array.
pub proof fn lemma_array_of<const N: usize>(a: [u8; N])
    ensures
        array_of::<N>(a@) == a,
{
    let b = array_of::<N>(a@);
    assert(b@ == a@);
    assert(b =~= a);
}

impl<const N: usize> ByteArray<N> {
    /// Reads an identifier from its printed form: `0x` and `2 * N` hex
    /// digits, in any mix of cases.
    pub fn from_hex_string(text: &str) -> (r: Result<Self, ByteArrayError>)
        ensures
            match r {
                Ok(id) => spec_from_hex_string(text.spec_bytes(), N as nat) == Ok::<
                    Seq<u8>,
                    ByteArrayError,
                >(id.0@),
                Err(e) => spec_from_hex_string(text.spec_bytes(), N as nat) == Err::<
                    Seq<u8>,
                    ByteArrayError,
                >(e),
            },
    {
        let bytes = text.as_bytes();
        if bytes.len() < 2 || bytes[0] != 48u8 || bytes[1] != 120u8 {
            return Err(ByteArrayError::MissingPrefix);
        }
        match decode_hex::<N>(slice_subrange(bytes, 2, bytes.len())) {
            Ok(out) => Ok(ByteArray(out)),
            Err(e) => Err(ByteArrayError::Hex(e)),
        }
    }

    /// The identifier whose bytes are all zero.
    pub fn default() -> (r: Self)
        ensures
            forall|i: int| 0 <= i < N ==> r.0@[i] == 0u8,
    {
        ByteArray([0u8; N])
    }

    /// Reads an identifier from a database value. A binary value must hold
    /// exactly `N` bytes; a text value must be `\x` and `2 * N` hex digits.
    pub fn decode(format: ValueFormat, value: &[u8]) -> (r: Result<Self, ByteArrayError>)
        ensures
            match r {
                Ok(id) => spec_decode(format, value@, N as nat) == Ok::<Seq<u8>, ByteArrayError>(
                    id.0@,
                ),
                Err(e) => spec_decode(format, value@, N as nat) == Err::<Seq<u8>, ByteArrayError>(
                    e,
                ),
            },
    {
        match format {
            ValueFormat::Binary => {
                if value.len() != N {
                    return Err(ByteArrayError::WrongLength);
                }
                let mut bytes = [0u8; N];
                let mut i: usize = 0;
                while i < N
                    invariant
                        value@.len() == N,
                        i <= N,
                        forall|j: int| 0 <= j < i ==> bytes@[j] == value@[j],
                    decreases N - i,
                {
                    bytes[i] = value[i];
                    i += 1;
                }
                assert(bytes@ =~= value@);
                Ok(ByteArray(bytes))
            },
            ValueFormat::Text => {
                if value.len() < 2 || value[0] != 92u8 || value[1] != 120u8 {
                    assert(value@.len() >= 2 ==> value@.subrange(0, 2)[0] == value@[0]
                        && value@.subrange(0, 2)[1] == value@[1]);
                    return Err(ByteArrayError::MissingPrefix);
                }
                assert(value@.subrange(0, 2) =~= text_prefix());
                match decode_hex::<N>(slice_subrange(value, 2, value.len())) {
                    Ok(bytes) => Ok(ByteArray(bytes)),
                    Err(e) => Err(ByteArrayError::Hex(e)),
                }
            },
        }
    }

    /// The bytes that go to the database for this identifier in a prepared
    /// query.
    pub fn encode(&self) -> (r: Vec<u8>)
        ensures
            r@ == spec_encode(ValueFormat::Binary, self.0@),
    {
        let mut out: Vec<u8> = Vec::new();
        let mut i: usize = 0;
        while i < N
            invariant
                i <= N,
                out@.len() == i,
                forall|j: int| 0 <= j < i ==> out@[j] == self.0@[j],
            decreases N - i,
        {
            out.push(self.0[i]);
            i += 1;
        }
        assert(out@ =~= self.0@);
        out
    }

    /// Compares two identifiers byte by byte from the left; for identifiers
    /// of one size this is the order of the numbers that their bytes spell.
    pub fn order(&self, other: &Self) -> (r: KeyOrder)
        ensures
            r == KeyOrder::Before <==> be_value(self.0@) < be_value(other.0@),
            r == KeyOrder::After <==> be_value(self.0@) > be_value(other.0@),
            r == KeyOrder::Same <==> self.0@ == other.0@,
            r == KeyOrder::Same <==> *self == *other,
    {
        let mut r = KeyOrder::Same;
        let mut i: usize = 0;
        assert(self.0@.take(0) =~= other.0@.take(0));
        while i < N
            invariant
                i <= N,
                r == KeyOrder::Before <==> be_value(self.0@.take(i as int)) < be_value(
                    other.0@.take(i as int),
                ),
                r == KeyOrder::After <==> be_value(self.0@.take(i as int)) > be_value(
                    other.0@.take(i as int),
                ),
                r == KeyOrder::Same <==> self.0@.take(i as int) == other.0@.take(i as int),
            decreases N - i,
        {
            let x = self.0[i];
            let y = other.0[i];
            proof {
                let a = self.0@.take(i as int + 1);
                let b = other.0@.take(i as int + 1);
                assert(a.drop_last() =~= self.0@.take(i as int));
                assert(b.drop_last() =~= other.0@.take(i as int));
                assert(a.last() == x && b.last() == y);
                if a == b {
                    assert(self.0@.take(i as int) == other.0@.take(i as int));
                    assert(x == y);
                }
                if self.0@.take(i as int) == other.0@.take(i as int) && x == y {
                    assert(a =~= b);
                }
            }
            if r == KeyOrder::Same {
                if x < y {
                    r = KeyOrder::Before;
                } else if x > y {
                    r = KeyOrder::After;
                }
            }
            i += 1;
        }
        proof {
            assert(self.0@.take(N as int) =~= self.0@);
            assert(other.0@.take(N as int) =~= other.0@);
            if self.0@ == other.0@ {
                assert(self.0 =~= other.0);
            }
        }
        r
    }

    /// The printed form: `0x` followed by `2 * N` lowercase hex digits.
    pub fn to_hex_string(&self) -> (s: String)
        ensures
            s@ == spec_hex_string(self.0@),
    {
        let mut s = String::from_str("0x");
        let digits = encode_lower(self.0.as_slice());
        s.append(digits.as_str());
        proof {
            reveal_strlit("0x");
            assert("0x"@ =~= seq!['0', 'x']);
        }
        s
    }
}

/// An identifier written to the database and read back, in either format, is
/// the identifier that was written.
pub proof fn lemma_encode_decode_round_trip(format: ValueFormat, bytes: Seq<u8>)
    ensures
        spec_decode(format, spec_encode(format, bytes), bytes.len()) == Ok::<
            Seq<u8>,
            ByteArrayError,
        >(bytes),
{
    match format {
        ValueFormat::Binary => {},
        ValueFormat::Text => {
            let value = spec_encode(format, bytes);
            assert(value.subrange(0, 2) =~= text_prefix());
            assert(value.subrange(2, value.len() as int) =~= hex_text(bytes));
            lemma_hex_round_trip(bytes);
        },
    }
}

/// The printed form of an identifier reads back as that identifier.
pub proof fn lemma_hex_string_round_trip(bytes: Seq<u8>)
    ensures
        spec_from_hex_string(encode_utf8(spec_hex_string(bytes)), bytes.len()) == Ok::<
            Seq<u8>,
            ByteArrayError,
        >(bytes),
{
    let chars = spec_hex_string(bytes);
    let digits = hex_text(bytes);
    assert(is_ascii_chars(chars)) by {
        assert forall|i: int| 0 <= i < chars.len() implies '\0' <= #[trigger] chars[i]
            <= '\u{7f}' by {
            if i >= 2 {
                let b = bytes[(i - 2) / 2] as int;
                assert(0 <= b / 16 < 16 && 0 <= b % 16 < 16);
                assert(chars[i] == digits[i - 2] as char);
            }
        }
    }
    is_ascii_chars_encode_utf8(chars);
    let text = encode_utf8(chars);
    assert(text.len() == chars.len());
    assert(text[0] == chars[0] as u8 && text[1] == chars[1] as u8);
    assert(text.subrange(2, text.len() as int) =~= digits) by {
        assert forall|i: int| 0 <= i < digits.len() implies text[i + 2] == digits[i] by {
            let b = bytes[i / 2] as int;
            assert(0 <= b / 16 < 16 && 0 <= b % 16 < 16);
            assert(chars[i + 2] == digits[i] as char);
            assert(text[i + 2] == chars[i + 2] as u8);
        }
    }
    lemma_hex_round_trip(bytes);
}

/// A value whose length is not that of the form of an identifier of `n`
/// bytes (`n` bytes in binary, `2 * n + 2` in text) is rejected.
pub proof fn lemma_decode_rejects_other_lengths(format: ValueFormat, value: Seq<u8>, n: nat)
    requires
        value.len() != spec_encoded_len(format, n),
    ensures
        spec_decode(format, value, n) is Err,
        format == ValueFormat::Binary ==> spec_decode(format, value, n) == Err::<
            Seq<u8>,
            ByteArrayError,
        >(ByteArrayError::WrongLength),
{
}

} // verus!
