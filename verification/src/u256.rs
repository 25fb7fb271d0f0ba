//! Trusted boundary around `spl_math::uint::U256`.
//!
//! The engine's numeric primitive is a 256-bit unsigned integer.  The integer
//! type itself comes from the `spl_math` crate; this module declares it to
//! the verifier and wraps the handful of operations the engine uses.  Each
//! wrapper's contract states, over the mathematical value [`u256_of`], what
//! the crate's source shows the operation to do.  Everything above this
//! module is verified against these contracts.

use vstd::prelude::*;

use spl_math::uint::U256;

verus! {

#[verifier::external_type_specification]
pub struct ExU256(U256);

/// One past the largest value a `U256` can hold: `2^256`.
pub open spec fn u256_bound() -> nat {
    0x1_0000_0000_0000_0000_0000_0000_0000_0000_0000_0000_0000_0000_0000_0000_0000_0000nat
}

/// The mathematical value of a `U256` from its four little-endian 64-bit
/// limbs.
pub open spec fn u256_of(v: U256) -> nat {
    v.0[0] as nat
    + v.0[1] as nat * 0x1_0000_0000_0000_0000nat
    + v.0[2] as nat * 0x1_0000_0000_0000_0000_0000_0000_0000_0000nat
    + v.0[3] as nat * 0x1_0000_0000_0000_0000_0000_0000_0000_0000_0000_0000_0000_0000nat
}

/// The unsigned value a byte sequence denotes read little-endian.
pub open spec fn le_value(s: Seq<u8>) -> nat
    decreases s.len(),
{
    if s.len() == 0 {
        0
    } else {
        s[0] as nat + 256 * le_value(s.drop_first())
    }
}

/// Law: a little-endian byte string of a given length denotes each value
/// at most once, so the 32-byte persisted form of a quantity is unique and
/// its round trip is bit-exact.
pub proof fn lemma_le_value_unique(s1: Seq<u8>, s2: Seq<u8>)
    requires
        s1.len() == s2.len(),
        le_value(s1) == le_value(s2),
    ensures
        s1 == s2,
    decreases s1.len(),
{
    if s1.len() > 0 {
        vstd::arithmetic::div_mod::lemma_fundamental_div_mod_converse(
            le_value(s1) as int,
            256,
            le_value(s1.drop_first()) as int,
            s1[0] as int,
        );
        vstd::arithmetic::div_mod::lemma_fundamental_div_mod_converse(
            le_value(s2) as int,
            256,
            le_value(s2.drop_first()) as int,
            s2[0] as int,
        );
        lemma_le_value_unique(s1.drop_first(), s2.drop_first());
        assert forall|i: int| 0 <= i < s1.len() implies s1[i] == s2[i] by {
            if i > 0 {
                assert(s1[i] == s1.drop_first()[i - 1]);
                assert(s2[i] == s2.drop_first()[i - 1]);
            }
        }
        assert(s1 =~= s2);
    } else {
        assert(s1 =~= s2);
    }
}

/// Relies on `U256::from(u64)`: the value is the integer itself.
#[verifier::external_body]
pub(crate) fn u256_from_u64(x: u64) -> (r: U256)
    ensures
        u256_of(r) == x as nat,
{
    U256::from(x)
}

/// Relies on `Copy` for `U256`: a copy holds the same value.
#[verifier::external_body]
pub(crate) fn u256_dup(a: &U256) -> (r: U256)
    ensures
        u256_of(r) == u256_of(*a),
{
    *a
}

/// Relies on `U256::checked_add`: `None` exactly on overflow, else the sum.
#[verifier::external_body]
pub(crate) fn u256_add(a: &U256, b: &U256) -> (r: Option<U256>)
    ensures
        r is Some <==> u256_of(*a) + u256_of(*b) < u256_bound(),
        r matches Some(c) ==> u256_of(c) == u256_of(*a) + u256_of(*b),
{
    a.checked_add(*b)
}

/// Relies on `U256::checked_sub`: `None` exactly on underflow, else the
/// difference.
#[verifier::external_body]
pub(crate) fn u256_sub(a: &U256, b: &U256) -> (r: Option<U256>)
    ensures
        r is Some <==> u256_of(*b) <= u256_of(*a),
        r matches Some(c) ==> u256_of(c) == u256_of(*a) - u256_of(*b),
{
    a.checked_sub(*b)
}

/// Relies on `U256::checked_mul`: `None` exactly on overflow, else the
/// product.
#[verifier::external_body]
pub(crate) fn u256_mul(a: &U256, b: &U256) -> (r: Option<U256>)
    ensures
        r is Some <==> u256_of(*a) * u256_of(*b) < u256_bound(),
        r matches Some(c) ==> u256_of(c) == u256_of(*a) * u256_of(*b),
{
    a.checked_mul(*b)
}

/// Relies on `U256::checked_div`: `None` exactly on a zero divisor, else the
/// quotient rounded towards zero.
#[verifier::external_body]
pub(crate) fn u256_div(a: &U256, b: &U256) -> (r: Option<U256>)
    ensures
        r is Some <==> u256_of(*b) != 0,
        r matches Some(c) ==> u256_of(c) == u256_of(*a) / u256_of(*b),
{
    a.checked_div(*b)
}

/// Relies on `Ord` for `U256`: limbwise comparison orders by value.
#[verifier::external_body]
pub(crate) fn u256_le(a: &U256, b: &U256) -> (r: bool)
    ensures
        r == (u256_of(*a) <= u256_of(*b)),
{
    *a <= *b
}

/// Relies on `U256::as_u64`, which panics unless the value fits in 64 bits;
/// the precondition rules that out.
#[verifier::external_body]
pub(crate) fn u256_to_u64(v: &U256) -> (r: u64)
    requires
        u256_of(*v) <= u64::MAX,
    ensures
        r as nat == u256_of(*v),
{
    v.as_u64()
}

/// Relies on `U256::from_little_endian`: the 32 bytes are read as the
/// little-endian representation of the value.
#[verifier::external_body]
pub(crate) fn u256_from_le_bytes(s: &[u8; 32]) -> (r: U256)
    ensures
        u256_of(r) == le_value(s@),
{
    U256::from_little_endian(s)
}

/// Relies on `U256::to_little_endian`: the value is written out as 32
/// little-endian bytes.
#[verifier::external_body]
pub(crate) fn u256_to_le_bytes(v: &U256) -> (r: [u8; 32])
    ensures
        le_value(r@) == u256_of(*v),
{
    v.to_little_endian()
}

} // verus!
