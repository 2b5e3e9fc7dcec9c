//! Amounts as 256-bit unsigned integers: the value that 32 big-endian bytes
//! stand for, the two textual forms that stored records use, and the
//! arithmetic that `primitive_types::U256` does on them.

use crate::hex_codec::{all_hex, hex_value};
use vstd::prelude::*;
use vstd::string::StringSliceAdditionalSpecFns;

verus! {

/// An unsigned integer below `2^256`, held as its 32 big-endian bytes.
#[derive(Clone, Copy, Debug, Eq, PartialEq, Hash)]
pub struct U256(pub [u8; 32]);

/// The number that `bytes` spell, the most significant byte first.
pub open spec fn be_value(bytes: Seq<u8>) -> nat
    decreases bytes.len(),
{
    if bytes.len() == 0 {
        0
    } else {
        be_value(bytes.drop_last()) * 256 + bytes.last() as nat
    }
}

/// `2^256`, the first number that a `U256` cannot hold.
pub open spec fn u256_limit() -> nat {
    0x1_0000_0000_0000_0000_0000_0000_0000_0000_0000_0000_0000_0000_0000_0000_0000_0000nat
}

/// `256^n`: one more than the largest number that `n` bytes spell.
pub open spec fn pow256(n: nat) -> nat
    decreases n,
{
    if n == 0 {
        1
    } else {
        256 * pow256((n - 1) as nat)
    }
}

/// The power of 256 of a sum is the product of the powers.
pub proof fn lemma_pow256_add(a: nat, b: nat)
    ensures
        pow256(a + b) == pow256(a) * pow256(b),
    decreases b,
{
    if b == 0 {
        assert(pow256(a) * 1 == pow256(a));
    } else {
        lemma_pow256_add(a, (b - 1) as nat);
        let x = pow256(a) as int;
        let y = pow256((b - 1) as nat) as int;
        assert(pow256(a + b) == 256 * pow256((a + b - 1) as nat));
        assert(256 * (x * y) == x * (256 * y)) by (nonlinear_arith);
    }
}

/// 32 bytes hold exactly the numbers below `2^256`.
pub proof fn lemma_pow256_32()
    ensures
        pow256(32) == u256_limit(),
{
    assert(pow256(8) == 0x1_0000_0000_0000_0000nat) by {
        reveal_with_fuel(pow256, 9);
    }
    lemma_pow256_add(8, 8);
    lemma_pow256_add(16, 16);
    assert(pow256(16) == 0x1_0000_0000_0000_0000_0000_0000_0000_0000nat);
    assert(0x1_0000_0000_0000_0000_0000_0000_0000_0000nat
        * 0x1_0000_0000_0000_0000_0000_0000_0000_0000nat == u256_limit()) by (nonlinear_arith);
}

/// `n` bytes spell a number below `256^n`.
pub proof fn lemma_be_value_bound(bytes: Seq<u8>)
    ensures
        be_value(bytes) < pow256(bytes.len()),
    decreases bytes.len(),
{
    if bytes.len() > 0 {
        lemma_be_value_bound(bytes.drop_last());
    }
}

/// Every `U256` is below `2^256`.
pub proof fn lemma_u256_bound(v: U256)
    ensures
        v@ < u256_limit(),
{
    lemma_be_value_bound(v.0@);
    lemma_pow256_32();
}

/// What two byte strings spell when one is written after the other.
pub proof fn lemma_be_value_concat(a: Seq<u8>, b: Seq<u8>)
    ensures
        be_value(a + b) == be_value(a) * pow256(b.len()) + be_value(b),
    decreases b.len(),
{
    if b.len() == 0 {
        assert(a + b =~= a);
        assert(pow256(0) == 1);
        assert(be_value(b) == 0);
    } else {
        let front = b.drop_last();
        lemma_be_value_concat(a, front);
        assert((a + b).drop_last() =~= a + front);
        assert((a + b).last() == b.last());
        let va = be_value(a) as int;
        let p = pow256(front.len()) as int;
        let vf = be_value(front) as int;
        assert(pow256(b.len()) == 256 * p);
        assert(be_value(a + front) == va * p + vf);
        assert(be_value(a + b) == (va * p + vf) * 256 + b.last());
        assert(be_value(b) == vf * 256 + b.last());
        assert((va * p + vf) * 256 == va * (256 * p) + vf * 256) by (nonlinear_arith);
        assert(be_value(a + b) == va * (256 * p) + be_value(b));
    }
}

/// A byte string spells zero exactly when all its bytes are zero.
pub proof fn lemma_be_value_zero(bytes: Seq<u8>)
    ensures
        be_value(bytes) == 0 <==> forall|i: int| 0 <= i < bytes.len() ==> bytes[i] == 0u8,
    decreases bytes.len(),
{
    if bytes.len() > 0 {
        let front = bytes.drop_last();
        lemma_be_value_zero(front);
        if be_value(bytes) == 0 {
            assert forall|i: int| 0 <= i < bytes.len() implies bytes[i] == 0u8 by {
                if i < front.len() {
                    assert(front[i] == bytes[i]);
                }
            }
        } else if forall|i: int| 0 <= i < bytes.len() ==> bytes[i] == 0u8 {
            assert forall|i: int| 0 <= i < front.len() implies front[i] == 0u8 by {
                assert(front[i] == bytes[i]);
            }
        }
    }
}

/// Byte strings of one length that spell the same number are the same.
pub proof fn lemma_be_value_injective(a: Seq<u8>, b: Seq<u8>)
    requires
        a.len() == b.len(),
    ensures
        be_value(a) == be_value(b) <==> a == b,
    decreases a.len(),
{
    if a.len() == 0 {
        assert(a =~= b);
    } else {
        lemma_be_value_injective(a.drop_last(), b.drop_last());
        if be_value(a) == be_value(b) {
            assert(a.drop_last() == b.drop_last());
            assert(a.last() == b.last());
            assert(a =~= a.drop_last().push(a.last()));
            assert(b =~= b.drop_last().push(b.last()));
        }
    }
}

impl View for U256 {
    type V = nat;

    open spec fn view(&self) -> nat {
        be_value(self.0@)
    }
}

/// What a decimal text parses to, read digit by digit from the left: a byte
/// that is no digit, or a digit that takes the number to `2^256` or beyond,
/// leaves no value. The empty text is zero.
pub open spec fn dec_parse(text: Seq<u8>) -> Option<nat>
    decreases text.len(),
{
    if text.len() == 0 {
        Some(0)
    } else {
        match dec_parse(text.drop_last()) {
            None => None,
            Some(v) => {
                let c = text.last();
                if 48 <= c <= 57 && v * 10 + (c - 48) < u256_limit() {
                    Some((v * 10 + (c - 48)) as nat)
                } else {
                    None
                }
            },
        }
    }
}

/// The number that a text of hex digits spells.
pub open spec fn hex_digits_value(digits: Seq<u8>) -> nat
    decreases digits.len(),
{
    if digits.len() == 0 {
        0
    } else {
        hex_digits_value(digits.drop_last()) * 16 + hex_value(digits.last()).unwrap() as nat
    }
}

/// `text` starts with `0x`.
pub open spec fn has_hex_prefix(text: Seq<u8>) -> bool {
    text.len() >= 2 && text[0] == 48u8 && text[1] == 120u8
}

/// What a hex text parses to: `0x` is optional, at most 64 digits may follow
/// it, in any mix of cases; no digit at all is zero.
pub open spec fn hex_parse(text: Seq<u8>) -> Option<nat> {
    let digits = if has_hex_prefix(text) {
        text.subrange(2, text.len() as int)
    } else {
        text
    };
    if digits.len() <= 64 && all_hex(digits) {
        Some(hex_digits_value(digits))
    } else {
        None
    }
}

/// What the text of an amount in a stored record parses to: hex where it
/// starts with `0x`, decimal otherwise.
pub open spec fn hex_or_decimal_parse(text: Seq<u8>) -> Option<nat> {
    if has_hex_prefix(text) {
        hex_parse(text)
    } else {
        dec_parse(text)
    }
}

/// The amount with the value `v`, which must be below `2^256`.
pub open spec fn u256_of(v: nat) -> U256 {
    choose|u: U256| u@ == v
}

/// The amount with the value of an amount is that amount.
pub proof fn lemma_u256_of(u: U256)
    ensures
        u256_of(u@) == u,
{
    let w = u256_of(u@);
    assert(w@ == u@);
    lemma_be_value_injective(w.0@, u.0@);
    assert(w.0 =~= u.0);
}

/// The value of an optional amount.
pub open spec fn option_value(r: Option<U256>) -> Option<nat> {
    match r {
        Some(v) => Some(v@),
        None => None,
    }
}

/// Calls `primitive_types::U256::from_dec_str`. Trusted: the call succeeds
/// exactly where `dec_parse` has a value for the text's bytes, with that
/// value.
#[verifier::external_body]
pub(crate) fn from_dec_str(text: &str) -> (r: Option<U256>)
    ensures
        option_value(r) == dec_parse(text.spec_bytes()),
{
    match primitive_types::U256::from_dec_str(text) {
        Ok(v) => {
            let mut out = [0u8; 32];
            v.to_big_endian(&mut out);
            Some(U256(out))
        },
        Err(_) => None,
    }
}

/// Calls `primitive_types::U256::from_str_radix` with radix 16. Trusted: the
/// call succeeds exactly where `hex_parse` has a value for the text's bytes,
/// with that value.
#[verifier::external_body]
pub(crate) fn from_hex_str(text: &str) -> (r: Option<U256>)
    ensures
        option_value(r) == hex_parse(text.spec_bytes()),
{
    match primitive_types::U256::from_str_radix(text, 16) {
        Ok(v) => {
            let mut out = [0u8; 32];
            v.to_big_endian(&mut out);
            Some(U256(out))
        },
        Err(_) => None,
    }
}

/// Calls `primitive_types::U256::checked_mul`. Trusted: the product, where it
/// is below `2^256`, and `None` where it is not.
#[verifier::external_body]
pub(crate) fn checked_mul(a: &U256, b: &U256) -> (r: Option<U256>)
    ensures
        option_value(r) == if a@ * b@ < u256_limit() {
            Some(a@ * b@)
        } else {
            None
        },
{
    let x = primitive_types::U256::from_big_endian(&a.0);
    match x.checked_mul(primitive_types::U256::from_big_endian(&b.0)) {
        Some(v) => {
            let mut out = [0u8; 32];
            v.to_big_endian(&mut out);
            Some(U256(out))
        },
        None => None,
    }
}

/// Calls `primitive_types::U256::checked_div`. Trusted: the quotient rounded
/// down, and `None` where the divisor is zero.
#[verifier::external_body]
pub(crate) fn checked_div(a: &U256, b: &U256) -> (r: Option<U256>)
    ensures
        option_value(r) == if b@ != 0 {
            Some(a@ / b@)
        } else {
            None
        },
{
    let x = primitive_types::U256::from_big_endian(&a.0);
    match x.checked_div(primitive_types::U256::from_big_endian(&b.0)) {
        Some(v) => {
            let mut out = [0u8; 32];
            v.to_big_endian(&mut out);
            Some(U256(out))
        },
        None => None,
    }
}

/// Reads an amount as stored records write it: `0x` and hex digits, or decimal
/// digits.
pub fn parse_hex_or_decimal(text: &str) -> (r: Option<U256>)
    ensures
        option_value(r) == hex_or_decimal_parse(text.spec_bytes()),
{
    let bytes = text.as_bytes();
    if bytes.len() >= 2 && bytes[0] == 48u8 && bytes[1] == 120u8 {
        from_hex_str(text)
    } else {
        from_dec_str(text)
    }
}

} // verus!
