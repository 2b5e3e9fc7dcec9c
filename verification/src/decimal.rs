//! Amounts as the database keeps them: arbitrary-precision decimals. A decimal
//! is held as plain values (sign, big-endian magnitude, scale); rescaling one
//! to an integer is done by the `bigdecimal` crate.

use crate::u256::{
    be_value, lemma_be_value_bound, lemma_be_value_concat, lemma_be_value_zero, lemma_pow256_32,
    lemma_be_value_injective, lemma_u256_bound, option_value, pow256, u256_limit, U256,
};
use vstd::prelude::*;
use vstd::slice::slice_subrange;

verus! {

/// An unsigned integer of any size, as its big-endian bytes. Leading zero
/// bytes do not change the number.
#[derive(Clone, Debug, PartialEq, Eq)]
pub struct BigUint {
    /// The bytes, the most significant first.
    pub bytes: Vec<u8>,
}

impl View for BigUint {
    type V = nat;

    open spec fn view(&self) -> nat {
        be_value(self.bytes@)
    }
}

/// A decimal number: `magnitude`, negated where `negative` is set, times
/// `10^(-scale)`.
#[derive(Clone, Debug, PartialEq, Eq)]
pub struct BigDecimal {
    /// Whether the unscaled number is to be negated.
    pub negative: bool,
    /// The unscaled number without its sign, as big-endian bytes.
    pub magnitude: Vec<u8>,
    /// The number of decimal places; a negative scale multiplies by a power
    /// of ten.
    pub scale: i64,
}

/// The mathematical content of a `BigDecimal`.
pub struct Decimal {
    /// Whether the unscaled number is to be negated.
    pub negative: bool,
    /// The unscaled number without its sign, as big-endian bytes.
    pub magnitude: Seq<u8>,
    /// The number of decimal places.
    pub scale: int,
}

impl View for BigDecimal {
    type V = Decimal;

    open spec fn view(&self) -> Decimal {
        Decimal { negative: self.negative, magnitude: self.magnitude@, scale: self.scale as int }
    }
}

/// `10^n`.
pub open spec fn pow10(n: nat) -> nat
    decreases n,
{
    if n == 0 {
        1
    } else {
        10 * pow10((n - 1) as nat)
    }
}

impl Decimal {
    /// The decimal with scale 0 whose unscaled number `bytes` spell.
    pub open spec fn of_bytes(bytes: Seq<u8>) -> Decimal {
        Decimal { negative: false, magnitude: bytes, scale: 0 }
    }

    /// The unscaled number with its sign.
    pub open spec fn unscaled(self) -> int {
        if self.negative {
            -(be_value(self.magnitude) as int)
        } else {
            be_value(self.magnitude) as int
        }
    }

    /// The integer that this decimal equals, where it equals one.
    pub open spec fn integer_value(self) -> Option<int> {
        if self.scale <= 0 {
            Some(self.unscaled() * pow10((-self.scale) as nat))
        } else if self.unscaled() % (pow10(self.scale as nat) as int) == 0 {
            Some(self.unscaled() / (pow10(self.scale as nat) as int))
        } else {
            None
        }
    }

    /// The 256-bit amount that this decimal equals: it has one where it is an
    /// integer, not negative and below `2^256`.
    pub open spec fn as_u256(self) -> Option<nat> {
        match self.integer_value() {
            Some(v) => if 0 <= v < u256_limit() {
                Some(v as nat)
            } else {
                None
            },
            None => None,
        }
    }
}

/// `value` times `10^(-scale)`, rounded down.
pub open spec fn rescaled(value: nat, scale: int) -> nat {
    if scale <= 0 {
        value * pow10((-scale) as nat)
    } else {
        value / pow10(scale as nat)
    }
}

/// Calls `BigDecimal::is_integer` of `bigdecimal` on the decimal with the
/// unscaled number that `magnitude` spells and a positive `scale`. Trusted:
/// the answer is whether `10^scale` divides the unscaled number. The bound on
/// `scale` keeps the power of ten that the call computes small.
#[verifier::external_body]
fn scaled_is_integer(magnitude: &[u8], scale: i64) -> (r: bool)
    requires
        0 < scale <= 3 * magnitude@.len(),
    ensures
        r == (be_value(magnitude@) % pow10(scale as nat) == 0),
{
    let digits = num::BigInt::from_bytes_be(num::bigint::Sign::Plus, magnitude);
    bigdecimal::BigDecimal::new(digits, scale).is_integer()
}

/// Calls `to_bigint` of `bigdecimal` on the decimal with the unscaled number
/// that `magnitude` spells. Trusted: the call gives the big-endian bytes of
/// the unscaled number times `10^(-scale)`, rounded down. The bounds on
/// `scale` keep the power of ten that the call computes small.
#[verifier::external_body]
fn scaled_to_integer(magnitude: &[u8], scale: i64) -> (r: Option<Vec<u8>>)
    requires
        -77 <= scale <= 3 * magnitude@.len(),
    ensures
        r is Some,
        be_value(r.unwrap()@) == rescaled(be_value(magnitude@), scale as int),
{
    let digits = num::BigInt::from_bytes_be(num::bigint::Sign::Plus, magnitude);
    let decimal = bigdecimal::BigDecimal::new(digits, scale);
    match num::bigint::ToBigInt::to_bigint(&decimal) {
        Some(v) => Some(v.to_bytes_be().1),
        None => None,
    }
}

/// Whether all of `bytes` are zero, that is whether they spell zero.
pub fn spells_zero(bytes: &[u8]) -> (r: bool)
    ensures
        r == (be_value(bytes@) == 0),
{
    let mut i: usize = 0;
    while i < bytes.len()
        invariant
            i <= bytes@.len(),
            forall|j: int| 0 <= j < i ==> bytes@[j] == 0u8,
        decreases bytes@.len() - i,
    {
        if bytes[i] != 0 {
            proof {
                lemma_be_value_zero(bytes@);
            }
            return false;
        }
        i += 1;
    }
    proof {
        lemma_be_value_zero(bytes@);
    }
    true
}

/// The 256-bit amount that `bytes` spell, where they spell one below `2^256`.
pub fn u256_from_be_bytes(bytes: &[u8]) -> (r: Option<U256>)
    ensures
        option_value(r) == if be_value(bytes@) < u256_limit() {
            Some(be_value(bytes@))
        } else {
            None
        },
{
    let n = bytes.len();
    let k: usize = if n < 32 {
        n
    } else {
        32
    };
    let high = slice_subrange(bytes, 0, n - k);
    let low = slice_subrange(bytes, n - k, n);
    proof {
        assert(bytes@ =~= high@ + low@);
        lemma_be_value_concat(high@, low@);
        lemma_be_value_bound(low@);
        lemma_pow256_32();
    }
    if !spells_zero(high) {
        proof {
            assert(k == 32);
            let h = be_value(high@) as int;
            let p = pow256(32) as int;
            assert(h * p >= p) by (nonlinear_arith)
                requires
                    h >= 1,
                    p >= 0,
            ;
        }
        return None;
    }
    let mut out = [0u8; 32];
    let mut i: usize = 0;
    while i < k
        invariant
            k <= 32,
            low@.len() == k,
            i <= k,
            forall|j: int| 0 <= j < 32 - k ==> out@[j] == 0u8,
            forall|j: int| 0 <= j < i ==> out@[32 - k + j] == low@[j],
        decreases k - i,
    {
        out[32 - k + i] = low[i];
        i += 1;
    }
    proof {
        let pad = out@.subrange(0, 32 - k);
        assert(out@ =~= pad + low@);
        lemma_be_value_concat(pad, low@);
        lemma_be_value_zero(pad);
        assert(be_value(pad) == 0);
        assert(be_value(out@) == be_value(low@));
        assert(be_value(bytes@) == be_value(low@));
        lemma_pow256_le_32(k as nat);
    }
    Some(U256(out))
}

/// At most 32 bytes spell a number below `2^256`.
proof fn lemma_pow256_le_32(k: nat)
    requires
        k <= 32,
    ensures
        pow256(k) <= u256_limit(),
    decreases 32 - k,
{
    if k == 32 {
        lemma_pow256_32();
    } else {
        lemma_pow256_le_32(k + 1);
    }
}

/// Powers of ten are positive and grow with the exponent.
pub proof fn lemma_pow10_grows(a: nat, b: nat)
    requires
        a <= b,
    ensures
        1 <= pow10(a) <= pow10(b),
    decreases b,
{
    if b == 0 {
    } else if a == b {
        lemma_pow10_grows(0, (b - 1) as nat);
    } else {
        lemma_pow10_grows(a, (b - 1) as nat);
    }
}

/// The power of ten of a sum is the product of the powers.
pub proof fn lemma_pow10_add(a: nat, b: nat)
    ensures
        pow10(a + b) == pow10(a) * pow10(b),
    decreases b,
{
    if b == 0 {
        assert(pow10(a) * 1 == pow10(a));
    } else {
        lemma_pow10_add(a, (b - 1) as nat);
        let x = pow10(a) as int;
        let y = pow10((b - 1) as nat) as int;
        assert(pow10(a + b) == 10 * pow10((a + b - 1) as nat));
        assert(10 * (x * y) == x * (10 * y)) by (nonlinear_arith);
    }
}

/// `10^78` is beyond what 256 bits hold.
pub proof fn lemma_pow10_78()
    ensures
        pow10(78) >= u256_limit(),
{
    assert(pow10(13) == 10_000_000_000_000nat) by {
        reveal_with_fuel(pow10, 14);
    }
    lemma_pow10_add(13, 13);
    lemma_pow10_add(26, 13);
    lemma_pow10_add(39, 39);
    assert(pow10(26) == 100_000_000_000_000_000_000_000_000nat);
    assert(pow10(39) == 1_000_000_000_000_000_000_000_000_000_000_000_000_000nat);
}

/// Three decimal places hold more than one byte does.
pub proof fn lemma_pow256_below_pow10(n: nat)
    ensures
        pow256(n) <= pow10(3 * n),
    decreases n,
{
    if n > 0 {
        lemma_pow256_below_pow10((n - 1) as nat);
        reveal_with_fuel(pow10, 4);
        assert(pow10(3 * n) == 1000 * pow10((3 * (n - 1)) as nat));
    }
}

/// The decimal form of a 256-bit amount: scale 0, not negative, the amount's
/// own bytes as the unscaled number.
pub fn u256_to_big_decimal(u256: &U256) -> (r: BigDecimal)
    ensures
        r@ == Decimal::of_bytes(u256.0@),
{
    let big_uint = u256_to_big_uint(u256);
    BigDecimal { negative: false, magnitude: big_uint.bytes, scale: 0 }
}

/// The amount as an unsigned integer of any size.
pub fn u256_to_big_uint(input: &U256) -> (r: BigUint)
    ensures
        r.bytes@ == input.0@,
        r@ == input@,
{
    let mut bytes: Vec<u8> = Vec::new();
    let mut i: usize = 0;
    while i < 32
        invariant
            i <= 32,
            bytes@.len() == i,
            forall|j: int| 0 <= j < i ==> bytes@[j] == input.0@[j],
        decreases 32 - i,
    {
        bytes.push(input.0[i]);
        i += 1;
    }
    assert(bytes@ =~= input.0@);
    BigUint { bytes }
}

/// The 256-bit amount that a decimal equals. There is none where the decimal
/// is negative, has a fractional part, or is `2^256` or more.
pub fn big_decimal_to_u256(big_decimal: &BigDecimal) -> (r: Option<U256>)
    ensures
        option_value(r) == big_decimal@.as_u256(),
{
    let ghost d = big_decimal@;
    let ghost m = be_value(big_decimal.magnitude@) as int;
    let scale = big_decimal.scale;
    let magnitude = big_decimal.magnitude.as_slice();
    if spells_zero(magnitude) {
        let zero = [0u8; 32];
        proof {
            lemma_be_value_zero(zero@);
            if scale > 0 {
                lemma_pow10_grows(0, scale as nat);
                let p = pow10(scale as nat) as int;
                assert(0int % p == 0 && 0int / p == 0) by (nonlinear_arith)
                    requires
                        p >= 1,
                ;
            } else {
                let p = pow10((-scale) as nat) as int;
                assert(0int * p == 0) by (nonlinear_arith);
            }
            assert(d.unscaled() == 0);
        }
        return Some(U256(zero));
    }
    if big_decimal.negative {
        proof {
            if scale > 0 {
                lemma_pow10_grows(0, scale as nat);
                let p = pow10(scale as nat) as int;
                assert((-m) % p == 0 ==> (-m) / p < 0) by (nonlinear_arith)
                    requires
                        p >= 1,
                        m >= 1,
                ;
            } else {
                lemma_pow10_grows(0, (-scale) as nat);
                let p = pow10((-scale) as nat) as int;
                assert((-m) * p < 0) by (nonlinear_arith)
                    requires
                        p >= 1,
                        m >= 1,
                ;
            }
        }
        return None;
    }
    if scale == 0 {
        proof {
            assert(pow10(0) == 1);
            assert(m * 1 == m);
        }
        return u256_from_be_bytes(magnitude);
    }
    if scale < -77 {
        proof {
            lemma_pow10_grows(78, (-scale) as nat);
            lemma_pow10_78();
            let p = pow10((-scale) as nat) as int;
            assert(m * p >= p) by (nonlinear_arith)
                requires
                    p >= 1,
                    m >= 1,
            ;
        }
        return None;
    }
    if scale > 0 {
        let places = scale as u128;
        let room = 3 * (magnitude.len() as u128);
        if places > room {
            proof {
                let n = big_decimal.magnitude@.len();
                lemma_be_value_bound(big_decimal.magnitude@);
                lemma_pow256_below_pow10(n);
                lemma_pow10_grows(3 * n, scale as nat);
                let p = pow10(scale as nat) as int;
                assert(m % p == m) by (nonlinear_arith)
                    requires
                        0 <= m < p,
                ;
            }
            return None;
        }
        if !scaled_is_integer(magnitude, scale) {
            return None;
        }
    }
    match scaled_to_integer(magnitude, scale) {
        Some(bytes) => u256_from_be_bytes(bytes.as_slice()),
        None => None,
    }
}

/// A 256-bit amount written as a decimal and read back is the same amount,
/// and no other `U256` has the value that comes back.
pub proof fn lemma_amount_round_trip(amount: U256, back: U256)
    ensures
        Decimal::of_bytes(amount.0@).as_u256() == Some(amount@),
        back@ == amount@ ==> back == amount,
{
    lemma_u256_bound(amount);
    assert(pow10(0) == 1);
    assert(amount@ * 1 == amount@);
    if back@ == amount@ {
        lemma_be_value_injective(back.0@, amount.0@);
        assert(back.0 =~= amount.0);
    }
}

} // verus!
