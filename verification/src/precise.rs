//! The fixed-point numeric primitive.
//!
//! A [`Precise`] is a non-negative 256-bit integer read as a fixed-point
//! quantity scaled by [`UNIT`]: the stored integer is `UNIT` times the
//! quantity it denotes.  All operations are overflow-checked: whatever would
//! leave the 256-bit range, or divide by zero, returns `None` instead of
//! wrapping, saturating or rounding.  Multiplication and division round the
//! final scaled result towards zero.

use vstd::arithmetic::div_mod::lemma_div_is_ordered;
use vstd::arithmetic::div_mod::lemma_div_multiples_vanish;
use vstd::arithmetic::div_mod::lemma_hoist_over_denominator;
use vstd::arithmetic::power::lemma_pow_positive;
use vstd::arithmetic::power::pow;
use vstd::prelude::*;

use spl_math::uint::U256;

use crate::u256::le_value;
use crate::u256::u256_add;
use crate::u256::u256_bound;
use crate::u256::u256_div;
use crate::u256::u256_dup;
use crate::u256::u256_from_le_bytes;
use crate::u256::u256_from_u64;
use crate::u256::u256_le;
use crate::u256::u256_mul;
use crate::u256::u256_of;
use crate::u256::u256_sub;
use crate::u256::u256_to_le_bytes;
use crate::u256::u256_to_u64;
use crate::CommonsAbcError;

verus! {

/// The fixed-point scale: a `Precise` holding `n * UNIT` denotes the
/// quantity `n`.
pub const UNIT: u64 = 1_000_000;

/// A fixed-point quantity: a 256-bit unsigned integer scaled by [`UNIT`].
pub struct Precise {
    v: U256,
}

impl Precise {
    /// The underlying scaled integer, the value every contract speaks of.
    pub closed spec fn value(self) -> nat {
        u256_of(self.v)
    }
}

/// What multiplication computes on the scaled integers: `a * b` rescaled,
/// rounded towards zero.
pub open spec fn fp_mul_spec(a: nat, b: nat) -> nat {
    (a * b) / (UNIT as nat)
}

/// What division computes on the scaled integers: `a / b` rescaled, rounded
/// towards zero (zero divisor mapped to zero; the executable operation fails
/// there instead).
pub open spec fn fp_div_spec(a: nat, b: nat) -> nat {
    if b == 0 {
        0
    } else {
        (a * UNIT as nat) / b
    }
}

/// What raising to an integer power computes on the scaled integers: the
/// iterated [`fp_mul_spec`], starting from the fixed-point one.
pub open spec fn fp_pow_spec(b: nat, e: nat) -> nat
    decreases e,
{
    if e == 0 {
        UNIT as nat
    } else {
        fp_mul_spec(fp_pow_spec(b, (e - 1) as nat), b)
    }
}

/// Whether every intermediate product of the power computation stays below
/// `2^256`, so that the executable power succeeds.
pub open spec fn fp_pow_fits(b: nat, e: nat) -> bool
    decreases e,
{
    if e <= 1 {
        true
    } else {
        fp_pow_fits(b, (e - 1) as nat) && fp_pow_spec(b, (e - 1) as nat) * b < u256_bound()
    }
}

/// A power of one step is the base itself: scaling by `UNIT` and dividing it
/// back out is the identity.
pub proof fn lemma_fp_pow_one(b: nat)
    ensures
        fp_pow_spec(b, 1) == b,
{
    assert(fp_pow_spec(b, 0) == UNIT as nat);
    lemma_div_multiples_vanish(b as int, UNIT as int);
}

impl Precise {
    /// The fixed-point one, `UNIT` itself.
    pub fn one() -> (r: Precise)
        ensures
            r.value() == UNIT as nat,
    {
        Precise { v: u256_from_u64(UNIT) }
    }

    /// The fixed-point zero.
    pub fn zero() -> (r: Precise)
        ensures
            r.value() == 0,
    {
        Precise { v: u256_from_u64(0) }
    }

    /// A copy holding the same value.
    pub fn dup(&self) -> (r: Precise)
        ensures
            r.value() == self.value(),
    {
        Precise { v: u256_dup(&self.v) }
    }

    /// Whether this value is at most `rhs`.
    pub fn le(&self, rhs: &Precise) -> (r: bool)
        ensures
            r == (self.value() <= rhs.value()),
    {
        u256_le(&self.v, &rhs.v)
    }

    /// Whether this value is strictly below `rhs`.
    pub fn lt(&self, rhs: &Precise) -> (r: bool)
        ensures
            r == (self.value() < rhs.value()),
    {
        !u256_le(&rhs.v, &self.v)
    }

    /// The raw predecessor, one scaled unit down.
    pub fn raw_dec(&self) -> (r: Precise)
        requires
            self.value() >= 1,
        ensures
            r.value() == self.value() - 1,
    {
        let one_raw = u256_from_u64(1);
        Precise { v: u256_sub(&self.v, &one_raw).unwrap() }
    }

    /// A raw split point strictly between `low` (exclusive) and `high`
    /// (inclusive), for the root search.
    pub fn raw_mid_above(low: &Precise, high: &Precise) -> (m: Precise)
        requires
            low.value() < high.value(),
        ensures
            low.value() < m.value() <= high.value(),
    {
        let one_raw = u256_from_u64(1);
        let two_raw = u256_from_u64(2);
        let gap = u256_sub(&high.v, &low.v).unwrap();
        let gap_down = u256_sub(&gap, &one_raw).unwrap();
        let half = u256_div(&gap_down, &two_raw).unwrap();
        let above = u256_add(&low.v, &half).unwrap();
        Precise { v: u256_add(&above, &one_raw).unwrap() }
    }

    /// Checked fixed-point addition: the sum, unless it leaves the 256-bit
    /// range.
    pub fn checked_add(&self, rhs: &Precise) -> (r: Option<Precise>)
        ensures
            r is Some <==> self.value() + rhs.value() < u256_bound(),
            r matches Some(c) ==> c.value() == self.value() + rhs.value(),
    {
        match u256_add(&self.v, &rhs.v) {
            Some(v) => Some(Precise { v }),
            None => None,
        }
    }

    /// Checked fixed-point subtraction: the difference, unless it would go
    /// below zero.
    pub fn checked_sub(&self, rhs: &Precise) -> (r: Option<Precise>)
        ensures
            r is Some <==> rhs.value() <= self.value(),
            r matches Some(c) ==> c.value() == self.value() - rhs.value(),
    {
        match u256_sub(&self.v, &rhs.v) {
            Some(v) => Some(Precise { v }),
            None => None,
        }
    }

    /// Checked fixed-point multiplication: [`fp_mul_spec`] of the values,
    /// unless the raw 256-bit product overflows.
    pub fn checked_mul(&self, rhs: &Precise) -> (r: Option<Precise>)
        ensures
            r is Some <==> self.value() * rhs.value() < u256_bound(),
            r matches Some(c) ==> c.value() == fp_mul_spec(self.value(), rhs.value()),
    {
        match u256_mul(&self.v, &rhs.v) {
            Some(p) => {
                let unit = u256_from_u64(UNIT);
                match u256_div(&p, &unit) {
                    Some(q) => Some(Precise { v: q }),
                    None => None,
                }
            },
            None => None,
        }
    }

    /// Checked fixed-point division: [`fp_div_spec`] of the values, unless
    /// the divisor is zero or rescaling the dividend overflows.
    pub fn checked_div(&self, rhs: &Precise) -> (r: Option<Precise>)
        ensures
            r is Some <==> (self.value() * (UNIT as nat) < u256_bound() && rhs.value() != 0),
            r matches Some(c) ==> c.value() == fp_div_spec(self.value(), rhs.value()),
    {
        let unit = u256_from_u64(UNIT);
        match u256_mul(&self.v, &unit) {
            Some(scaled) => {
                match u256_div(&scaled, &rhs.v) {
                    Some(q) => Some(Precise { v: q }),
                    None => None,
                }
            },
            None => None,
        }
    }

    /// Checked fixed-point integer power: the iterated product
    /// [`fp_pow_spec`], unless an intermediate product overflows
    /// ([`fp_pow_fits`] says exactly when it does not).
    pub fn checked_pow(&self, exponent: u128) -> (r: Option<Precise>)
        ensures
            r is Some <==> fp_pow_fits(self.value(), exponent as nat),
            r matches Some(c) ==> c.value() == fp_pow_spec(self.value(), exponent as nat),
    {
        if exponent == 0 {
            return Some(Precise::one());
        }
        proof {
            lemma_fp_pow_one(self.value());
        }
        let mut acc = self.dup();
        let mut i: u128 = 1;
        while i < exponent
            invariant
                1 <= i <= exponent,
                acc.value() == fp_pow_spec(self.value(), i as nat),
                fp_pow_fits(self.value(), i as nat),
            decreases exponent - i,
        {
            match acc.checked_mul(self) {
                Some(next) => {
                    acc = next;
                },
                None => {
                    proof {
                        lemma_pow_fail_propagates(self.value(), (i + 1) as nat, exponent as nat);
                    }
                    return None;
                },
            }
            i = i + 1;
        }
        Some(acc)
    }
}

/// Once an intermediate power product overflows, every larger exponent
/// overflows too.
proof fn lemma_pow_fail_propagates(b: nat, e1: nat, e2: nat)
    requires
        2 <= e1 <= e2,
        !fp_pow_fits(b, e1),
    ensures
        !fp_pow_fits(b, e2),
    decreases e2,
{
    if e1 < e2 {
        lemma_pow_fail_propagates(b, e1, (e2 - 1) as nat);
    }
}

/// Fixed-point multiplication is monotone in both operands.
pub proof fn lemma_fp_mul_mono(a1: nat, b1: nat, a2: nat, b2: nat)
    requires
        a1 <= a2,
        b1 <= b2,
    ensures
        fp_mul_spec(a1, b1) <= fp_mul_spec(a2, b2),
{
    assert(a1 * b1 <= a2 * b2) by (nonlinear_arith)
        requires
            a1 <= a2,
            b1 <= b2,
    ;
    lemma_div_is_ordered((a1 * b1) as int, (a2 * b2) as int, UNIT as int);
}

/// Fixed-point powers are monotone in the base.
pub proof fn lemma_fp_pow_mono_base(b1: nat, b2: nat, e: nat)
    requires
        b1 <= b2,
    ensures
        fp_pow_spec(b1, e) <= fp_pow_spec(b2, e),
    decreases e,
{
    if e > 0 {
        lemma_fp_pow_mono_base(b1, b2, (e - 1) as nat);
        lemma_fp_mul_mono(fp_pow_spec(b1, (e - 1) as nat), b1, fp_pow_spec(b2, (e - 1) as nat), b2);
    }
}

/// On whole quantities the fixed-point power is exact: no step loses a
/// remainder.
pub proof fn lemma_fp_pow_whole(m: nat, e: nat)
    ensures
        fp_pow_spec(m * UNIT as nat, e) == pow(m as int, e) * (UNIT as int),
    decreases e,
{
    reveal(pow);
    let u = UNIT as nat;
    if e == 0 {
        assert(fp_pow_spec(m * u, 0) == u);
        assert(pow(m as int, 0) == 1);
    } else {
        lemma_fp_pow_whole(m, (e - 1) as nat);
        lemma_pow_positive(m as int + 1, e);
        let p = pow(m as int, (e - 1) as nat);
        assert(p >= 0) by {
            if m == 0 && e > 1 {
                vstd::arithmetic::power::lemma0_pow((e - 1) as nat);
            } else if m > 0 {
                lemma_pow_positive(m as int, (e - 1) as nat);
            }
        }
        assert(pow(m as int, e) == (m as int) * p);
        assert((p * (u as int)) * ((m * u) as int) == ((m as int) * p * (u as int)) * (u as int))
            by (nonlinear_arith);
        lemma_div_multiples_vanish((m as int) * p * (u as int), u as int);
        assert(fp_pow_spec(m * u, e) == fp_mul_spec(fp_pow_spec(m * u, (e - 1) as nat), m * u));
    }
}

/// One raw step above a whole quantity, the fixed-point power clears the
/// exact power by at least `e * m^(e-1)` raw units, floor rounding included.
#[verifier::rlimit(100)]
pub proof fn lemma_fp_pow_whole_above(m: nat, e: nat)
    requires
        1 <= m,
        1 <= e,
    ensures
        fp_pow_spec(m * UNIT as nat + 1, e) >= pow(m as int, e) * (UNIT as int) + e * pow(
            m as int,
            (e - 1) as nat,
        ),
    decreases e,
{
    reveal(pow);
    let u = UNIT as int;
    let b = m * UNIT as nat + 1;
    lemma_pow_positive(m as int, (e - 1) as nat);
    if e == 1 {
        lemma_fp_pow_one(b);
        assert(pow(m as int, 0) == 1);
        assert(pow(m as int, 1) == (m as int) * pow(m as int, 0));
        assert(pow(m as int, e) * (UNIT as int) + e * pow(m as int, (e - 1) as nat) == (
        m as int) * (UNIT as int) + 1) by (nonlinear_arith)
            requires
                e == 1nat,
                pow(m as int, 1) == (m as int) * pow(m as int, 0),
                pow(m as int, 0) == 1,
        ;
    } else {
        lemma_fp_pow_whole_above(m, (e - 1) as nat);
        lemma_pow_positive(m as int, (e - 2) as nat);
        lemma_pow_positive(m as int, e);
        let p_lo = pow(m as int, (e - 2) as nat);
        let p_mid = pow(m as int, (e - 1) as nat);
        let p_hi = pow(m as int, e);
        assert(p_mid == (m as int) * p_lo);
        assert(p_hi == (m as int) * p_mid);
        let ei = e as int;
        let mi = m as int;
        let bi = b as int;
        let prev = fp_pow_spec(b, (e - 1) as nat) as int;
        let q = p_mid * u + (ei - 1) * p_lo;
        let top = p_hi * u + ei * p_mid;
        assert((ei - 1) * p_lo >= 0) by (nonlinear_arith)
            requires
                ei >= 2,
                p_lo > 0,
        ;
        assert(prev >= q);
        assert(q * bi == top * u + (ei - 1) * p_lo) by (nonlinear_arith)
            requires
                q == p_mid * u + (ei - 1) * p_lo,
                top == p_hi * u + ei * p_mid,
                bi == mi * u + 1,
                p_mid == mi * p_lo,
                p_hi == mi * p_mid,
        ;
        assert(prev * bi >= q * bi) by (nonlinear_arith)
            requires
                prev >= q,
                q >= 0,
                bi >= 1,
        ;
        lemma_div_is_ordered(q * bi, prev * bi, u);
        lemma_hoist_over_denominator((ei - 1) * p_lo, top, UNIT as nat);
        vstd::arithmetic::div_mod::lemma_div_pos_is_pos((ei - 1) * p_lo, u);
        assert(fp_pow_spec(b, e) == fp_mul_spec(fp_pow_spec(b, (e - 1) as nat), b));
        assert(fp_pow_spec(b, e) == (prev * bi) / u);
        assert(fp_pow_spec(b, e) >= top);
    }
}

/// A whole 64-bit token amount as a fixed-point quantity.  Never fails: the
/// scaled amount always fits in 256 bits.
pub fn precise_from_u64(value: u64) -> (r: Result<Precise, CommonsAbcError>)
    ensures
        r matches Ok(p) && p.value() == value as nat * UNIT as nat,
{
    let raw = u256_from_u64(value);
    let unit = u256_from_u64(UNIT);
    assert((value as nat) * (UNIT as nat) < u256_bound()) by (nonlinear_arith)
        requires
            value <= u64::MAX,
    ;
    match u256_mul(&raw, &unit) {
        Some(v) => Ok(Precise { v }),
        None => Err(CommonsAbcError::MathOverflow),
    }
}

/// The whole part of a fixed-point quantity as a 64-bit token amount,
/// discarding any fraction; fails exactly when the whole part does not fit
/// in 64 bits.
pub fn precise_to_u64(value: &Precise) -> (r: Result<u64, CommonsAbcError>)
    ensures
        r matches Ok(x) ==> x as nat == value.value() / UNIT as nat,
        r is Ok <==> value.value() / (UNIT as nat) <= u64::MAX,
        r is Err ==> r == Err::<u64, CommonsAbcError>(CommonsAbcError::MathOverflow),
{
    let unit = u256_from_u64(UNIT);
    let whole = match u256_div(&value.v, &unit) {
        Some(q) => q,
        None => {
            return Err(CommonsAbcError::MathOverflow);
        },
    };
    let max = u256_from_u64(u64::MAX);
    if u256_le(&whole, &max) {
        Ok(u256_to_u64(&whole))
    } else {
        Err(CommonsAbcError::MathOverflow)
    }
}

/// A fixed-point quantity read back bit-exactly from its 32-byte
/// little-endian persisted form.
pub fn precise_from_bytes(bytes: &[u8; 32]) -> (r: Result<Precise, CommonsAbcError>)
    ensures
        r matches Ok(p) && p.value() == le_value(bytes@),
{
    Ok(Precise { v: u256_from_le_bytes(bytes) })
}

/// The 32-byte little-endian persisted form of a fixed-point quantity.
pub fn precise_to_bytes(value: &Precise) -> (r: [u8; 32])
    ensures
        le_value(r@) == value.value(),
{
    u256_to_le_bytes(&value.v)
}

} // verus!
