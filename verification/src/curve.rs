//! The invariant solver and the fee splitter.
//!
//! The curve relates supply and reserve through the constant
//! `K = supply^kappa / reserve`, fixed at creation.  The forward direction
//! `reserve -> supply` takes the integer `kappa`-th root of `K * reserve`;
//! the inverse `supply -> reserve` computes `supply^kappa / K`.  The fee
//! splitter divides a gross amount into a net share and a common-pool share
//! against a friction rate in parts per million.

use vstd::arithmetic::div_mod::lemma_div_denominator;
use vstd::arithmetic::div_mod::lemma_div_is_ordered;
use vstd::arithmetic::div_mod::lemma_div_multiples_vanish;
use vstd::arithmetic::div_mod::lemma_div_multiples_vanish_quotient;
use vstd::arithmetic::div_mod::lemma_fundamental_div_mod;
use vstd::arithmetic::power::lemma_pow_increases;
use vstd::arithmetic::power::lemma_pow_positive;
use vstd::arithmetic::power::pow;
use vstd::prelude::*;

use crate::precise::fp_div_spec;
use crate::u256::u256_bound;
use crate::precise::fp_mul_spec;
use crate::precise::fp_pow_fits;
use crate::precise::fp_pow_spec;
use crate::precise::lemma_fp_mul_mono;
use crate::precise::lemma_fp_pow_mono_base;
use crate::precise::lemma_fp_pow_whole;
use crate::precise::lemma_fp_pow_whole_above;
use crate::precise::precise_from_u64;
use crate::precise::precise_to_u64;
use crate::precise::Precise;
use crate::precise::UNIT;
use crate::CommonsAbcError;

verus! {

/// Friction rates are parts per million of this denominator.
pub const FEE_DENOMINATOR: u64 = 1_000_000;

/// What the root search returns for `value` and `root`: the largest raw
/// quantity not above `value` whose fixed-point `root`-th power does not
/// exceed `value`, or zero when even that bound fails.
pub open spec fn is_nth_root(value: nat, root: nat, r: nat) -> bool {
    &&& r <= value
    &&& (fp_pow_spec(r, root) <= value || r == 0)
    &&& forall|s: nat| r < s <= value ==> fp_pow_spec(s, root) > value
}

/// The root the search returns, as a value: [`is_nth_root`] holds of at
/// most one quantity, and this names it.
pub open spec fn root_of(value: nat, root: nat) -> nat {
    choose|r: nat| is_nth_root(value, root, r)
}

/// At most one quantity satisfies [`is_nth_root`], so any witness equals
/// [`root_of`].
pub proof fn lemma_root_of_eq(value: nat, root: nat, s: nat)
    requires
        is_nth_root(value, root, s),
    ensures
        root_of(value, root) == s,
{
    let c = root_of(value, root);
    assert(is_nth_root(value, root, c));
    if c < s {
        assert(fp_pow_spec(s, root) > value);
        assert(fp_pow_spec(s, root) <= value || s == 0);
        assert(false);
    }
    if c > s {
        assert(fp_pow_spec(c, root) > value);
        assert(fp_pow_spec(c, root) <= value || c == 0);
        assert(false);
    }
}

/// The integer `root`-th root of a fixed-point `value`, floor of the true
/// root, by binary search over `[0, value]`.  The search fails with
/// `MathOverflow` only when the power of a probed midpoint overflows 256
/// bits; whenever no quantity up to `value` overflows, it succeeds.
pub fn nth_root(value: &Precise, root: u64) -> (r: Result<Precise, CommonsAbcError>)
    ensures
        r matches Ok(p) ==> is_nth_root(value.value(), root as nat, p.value()),
        r is Err ==> r == Err::<Precise, CommonsAbcError>(CommonsAbcError::MathOverflow),
        r is Err ==> exists|s: nat| s <= value.value() && !fp_pow_fits(s, root as nat),
        (forall|s: nat| s <= value.value() ==> fp_pow_fits(s, root as nat)) ==> r is Ok,
{
    let zero = Precise::zero();
    if value.le(&zero) {
        return Ok(Precise::zero());
    }
    let mut low = Precise::zero();
    let mut high = value.dup();
    while low.lt(&high)
        invariant
            low.value() <= high.value() <= value.value(),
            fp_pow_spec(low.value(), root as nat) <= value.value() || low.value() == 0,
            forall|s: nat|
                high.value() < s <= value.value() ==> fp_pow_spec(s, root as nat) > value.value(),
        decreases high.value() - low.value(),
    {
        let mid = Precise::raw_mid_above(&low, &high);
        match mid.checked_pow(root as u128) {
            Some(mid_pow) => {
                if mid_pow.le(value) {
                    low = mid;
                } else {
                    proof {
                        assert forall|s: nat|
                            mid.value() - 1 < s <= value.value() implies fp_pow_spec(
                            s,
                            root as nat,
                        ) > value.value() by {
                            if s <= high.value() {
                                lemma_fp_pow_mono_base(mid.value(), s, root as nat);
                            }
                        }
                    }
                    high = mid.raw_dec();
                }
            },
            None => {
                proof {
                    assert(mid.value() <= value.value() && !fp_pow_fits(
                        mid.value(),
                        root as nat,
                    ));
                }
                return Err(CommonsAbcError::MathOverflow);
            },
        }
    }
    Ok(low)
}

/// The curve constant `K = supply^kappa / reserve` on whole token amounts,
/// as a fixed-point value.
pub open spec fn invariant_spec(initial_supply: nat, initial_reserve: nat, kappa: nat) -> nat {
    fp_div_spec(
        fp_pow_spec(initial_supply * (UNIT as nat), kappa),
        initial_reserve * (UNIT as nat),
    )
}

/// Computes the curve constant fixed at creation.  Fails with
/// `MathOverflow` exactly when the reserve is zero or the power or the
/// rescaled division overflows 256 bits.
pub fn compute_invariant(initial_supply: u64, initial_reserve: u64, kappa: u64) -> (r: Result<
    Precise,
    CommonsAbcError,
>)
    ensures
        r matches Ok(p) ==> p.value() == invariant_spec(
            initial_supply as nat,
            initial_reserve as nat,
            kappa as nat,
        ),
        r is Ok <==> {
            &&& initial_reserve != 0
            &&& fp_pow_fits((initial_supply as nat) * (UNIT as nat), kappa as nat)
            &&& fp_pow_spec((initial_supply as nat) * (UNIT as nat), kappa as nat) * (UNIT as nat)
                < u256_bound()
        },
        r is Err ==> r == Err::<Precise, CommonsAbcError>(CommonsAbcError::MathOverflow),
{
    let supply = match precise_from_u64(initial_supply) {
        Ok(p) => p,
        Err(e) => {
            return Err(e);
        },
    };
    let reserve = match precise_from_u64(initial_reserve) {
        Ok(p) => p,
        Err(e) => {
            return Err(e);
        },
    };
    let supply_pow = match supply.checked_pow(kappa as u128) {
        Some(p) => p,
        None => {
            return Err(CommonsAbcError::MathOverflow);
        },
    };
    match supply_pow.checked_div(&reserve) {
        Some(inv) => Ok(inv),
        None => Err(CommonsAbcError::MathOverflow),
    }
}

/// The forward conversion: the supply a given reserve backs, the integer
/// `kappa`-th root of `K * reserve`.
pub fn supply_from_reserve(reserve: Precise, invariant_k: &Precise, kappa: u64) -> (r: Result<
    Precise,
    CommonsAbcError,
>)
    ensures
        r matches Ok(s) ==> is_nth_root(
            fp_mul_spec(invariant_k.value(), reserve.value()),
            kappa as nat,
            s.value(),
        ),
        r is Err ==> r == Err::<Precise, CommonsAbcError>(CommonsAbcError::MathOverflow),
        ({
            &&& invariant_k.value() * reserve.value() < u256_bound()
            &&& forall|s: nat|
                s <= fp_mul_spec(invariant_k.value(), reserve.value()) ==> fp_pow_fits(
                    s,
                    kappa as nat,
                )
        }) ==> r is Ok,
{
    let product = match invariant_k.checked_mul(&reserve) {
        Some(p) => p,
        None => {
            return Err(CommonsAbcError::MathOverflow);
        },
    };
    nth_root(&product, kappa)
}

/// The inverse conversion: the reserve a given supply is backed by,
/// `supply^kappa / K`.
pub fn reserve_from_supply(supply: &Precise, invariant_k: &Precise, kappa: u64) -> (r: Result<
    Precise,
    CommonsAbcError,
>)
    ensures
        r matches Ok(p) ==> p.value() == fp_div_spec(
            fp_pow_spec(supply.value(), kappa as nat),
            invariant_k.value(),
        ),
        r is Ok <==> {
            &&& fp_pow_fits(supply.value(), kappa as nat)
            &&& fp_pow_spec(supply.value(), kappa as nat) * (UNIT as nat)
                < u256_bound()
            &&& invariant_k.value() != 0
        },
        r is Err ==> r == Err::<Precise, CommonsAbcError>(CommonsAbcError::MathOverflow),
{
    let supply_pow = match supply.checked_pow(kappa as u128) {
        Some(p) => p,
        None => {
            return Err(CommonsAbcError::MathOverflow);
        },
    };
    match supply_pow.checked_div(invariant_k) {
        Some(p) => Ok(p),
        None => Err(CommonsAbcError::MathOverflow),
    }
}

/// The pool share a friction rate skims off a gross amount:
/// `floor(amount * friction / 1_000_000)`.
pub open spec fn pool_share_spec(amount: nat, friction: nat) -> nat {
    (amount * friction) / (FEE_DENOMINATOR as nat)
}

/// A valid friction rate never skims more than the gross amount.
pub proof fn lemma_pool_share_le_amount(amount: nat, friction: nat)
    requires
        friction <= FEE_DENOMINATOR,
    ensures
        pool_share_spec(amount, friction) <= amount,
{
    let d = FEE_DENOMINATOR as nat;
    assert(amount * friction <= d * amount) by (nonlinear_arith)
        requires
            friction <= d,
    ;
    lemma_div_is_ordered((amount * friction) as int, (d * amount) as int, d as int);
    lemma_div_multiples_vanish(amount as int, d as int);
}

/// Splits a gross amount into `(net_share, pool_share)` against a friction
/// rate in parts per million: the pool share is
/// `floor(amount * friction / 1_000_000)`, rounded down in the depositor's
/// favour, and the two shares always rebuild the amount exactly.  Fails
/// exactly on a friction rate above one million.
pub fn split_with_friction(amount: u64, friction: u64) -> (r: Result<
    (u64, u64),
    CommonsAbcError,
>)
    ensures
        r is Ok <==> friction <= FEE_DENOMINATOR,
        friction > FEE_DENOMINATOR ==> r == Err::<(u64, u64), CommonsAbcError>(
            CommonsAbcError::InvalidFriction,
        ),
        r matches Ok(shares) ==> {
            &&& shares.1 as nat == pool_share_spec(amount as nat, friction as nat)
            &&& shares.0 as nat + shares.1 as nat == amount as nat
        },
        r matches Ok(shares) ==> (friction == FEE_DENOMINATOR ==> shares.0 == 0 && shares.1
            == amount),
{
    if friction > FEE_DENOMINATOR {
        return Err(CommonsAbcError::InvalidFriction);
    }
    let ghost a = amount as nat;
    let ghost f = friction as nat;
    let ghost u = UNIT as nat;
    let ghost d = FEE_DENOMINATOR as nat;
    let amount_p = match precise_from_u64(amount) {
        Ok(p) => p,
        Err(e) => {
            return Err(e);
        },
    };
    let numerator = match precise_from_u64(friction) {
        Ok(p) => p,
        Err(e) => {
            return Err(e);
        },
    };
    let denominator = match precise_from_u64(FEE_DENOMINATOR) {
        Ok(p) => p,
        Err(e) => {
            return Err(e);
        },
    };
    proof {
        assert((a * u) * (f * u) < u256_bound()) by (nonlinear_arith)
            requires
                a <= 0xFFFF_FFFF_FFFF_FFFFnat,
                f <= 1_000_000nat,
                u == 1_000_000nat,
                u256_bound()
                    == 0x1_0000_0000_0000_0000_0000_0000_0000_0000_0000_0000_0000_0000_0000_0000_0000_0000nat,
        ;
    }
    let product = match amount_p.checked_mul(&numerator) {
        Some(p) => p,
        None => {
            return Err(CommonsAbcError::MathOverflow);
        },
    };
    proof {
        assert((a * u) * (f * u) == u * (a * f * u)) by (nonlinear_arith);
        lemma_div_multiples_vanish((a * f * u) as int, u as int);
        assert(product.value() == a * f * u);
        assert((a * f * u) * u < u256_bound()) by (nonlinear_arith)
            requires
                a <= 0xFFFF_FFFF_FFFF_FFFFnat,
                f <= 1_000_000nat,
                u == 1_000_000nat,
                u256_bound()
                    == 0x1_0000_0000_0000_0000_0000_0000_0000_0000_0000_0000_0000_0000_0000_0000_0000_0000nat,
        ;
    }
    let pool_p = match product.checked_div(&denominator) {
        Some(p) => p,
        None => {
            return Err(CommonsAbcError::MathOverflow);
        },
    };
    proof {
        lemma_div_multiples_vanish_quotient(u as int, (a * f * u) as int, d as int);
        assert(u * (a * f * u) == (a * f * u) * u) by (nonlinear_arith);
        assert(u * d == d * u);
        assert(pool_p.value() == (a * f * u) / d);
        lemma_div_denominator((a * f * u) as int, d as int, u as int);
        assert(pool_p.value() / u == (a * f * u) / (d * u));
        lemma_div_multiples_vanish_quotient(u as int, (a * f) as int, d as int);
        assert(u * (a * f) == a * f * u) by (nonlinear_arith);
        assert(pool_p.value() / u == (a * f) / d);
        assert(a * f <= d * a) by (nonlinear_arith)
            requires
                f <= d,
        ;
        lemma_div_is_ordered((a * f) as int, (d * a) as int, d as int);
        lemma_div_multiples_vanish(a as int, d as int);
        assert((a * f) / d <= a);
        if f == d {
            assert((a * f) / d == a);
        }
    }
    let pool = match precise_to_u64(&pool_p) {
        Ok(x) => x,
        Err(e) => {
            return Err(e);
        },
    };
    let net = amount - pool;
    Ok((net, pool))
}

/// The pool share alone: [`split_with_friction`] restricted to its second
/// output, used as the exit tribute on the sell path.
pub fn compute_fee(amount: u64, friction: u64) -> (r: Result<u64, CommonsAbcError>)
    ensures
        r is Ok <==> friction <= FEE_DENOMINATOR,
        friction > FEE_DENOMINATOR ==> r == Err::<u64, CommonsAbcError>(
            CommonsAbcError::InvalidFriction,
        ),
        r matches Ok(pool) ==> pool as nat == pool_share_spec(amount as nat, friction as nat),
{
    match split_with_friction(amount, friction) {
        Ok(shares) => Ok(shares.1),
        Err(e) => Err(e),
    }
}

/// Law: converting a reserve to a supply and that supply back to a reserve
/// never yields more than the reserve put in — the floor rounding of the
/// root loses, never gains.
pub proof fn lemma_round_trip_non_increasing(reserve: nat, invariant_k: nat, kappa: nat, s: nat)
    requires
        1 <= kappa,
        is_nth_root(fp_mul_spec(invariant_k, reserve), kappa, s),
    ensures
        fp_div_spec(fp_pow_spec(s, kappa), invariant_k) <= reserve,
{
    let u = UNIT as nat;
    let v = fp_mul_spec(invariant_k, reserve);
    let p = fp_pow_spec(s, kappa);
    if invariant_k == 0 {
        assert(fp_div_spec(p, 0) == 0);
    } else if p <= v {
        assert(p * u <= v * u) by (nonlinear_arith)
            requires
                p <= v,
                u >= 0,
        ;
        lemma_fundamental_div_mod((invariant_k * reserve) as int, u as int);
        assert(v * u <= invariant_k * reserve) by (nonlinear_arith)
            requires
                v == (invariant_k * reserve) / u,
                invariant_k * reserve == u * ((invariant_k * reserve) / u) + (invariant_k * reserve) % u,
                (invariant_k * reserve) % u >= 0,
        ;
        lemma_div_is_ordered((p * u) as int, (invariant_k * reserve) as int, invariant_k as int);
        lemma_div_multiples_vanish(reserve as int, invariant_k as int);
        assert(invariant_k * reserve == reserve * invariant_k);
        assert(fp_div_spec(p, invariant_k) <= reserve);
    } else {
        assert(s == 0);
        assert(fp_pow_spec(0, kappa) == fp_mul_spec(fp_pow_spec(0, (kappa - 1) as nat), 0));
        assert(fp_pow_spec(0, kappa) == 0);
        assert(fp_div_spec(0, invariant_k) == 0);
    }
}

/// Law: the root search is exact on perfect powers of whole quantities —
/// the `kappa`-th root of the `kappa`-th power of a whole quantity is that
/// quantity again.
pub proof fn lemma_nth_root_exact_on_powers(m: nat, kappa: nat, r: nat)
    requires
        1 <= kappa,
        is_nth_root(fp_pow_spec(m * (UNIT as nat), kappa), kappa, r),
    ensures
        r == m * (UNIT as nat),
{
    let u = UNIT as nat;
    let v = fp_pow_spec(m * u, kappa);
    if m == 0 {
        assert(fp_pow_spec(0, kappa) == fp_mul_spec(fp_pow_spec(0, (kappa - 1) as nat), 0));
        assert(v == 0);
        assert(r == 0);
    } else {
        lemma_fp_pow_whole(m, kappa);
        lemma_pow_positive(m as int, kappa);
        lemma_pow_positive(m as int, (kappa - 1) as nat);
        lemma_pow_increases(m, 1, kappa);
        vstd::arithmetic::power::lemma_pow1(m as int);
        assert(m * u <= v) by (nonlinear_arith)
            requires
                v == pow(m as int, kappa) * (u as int),
                pow(m as int, kappa) >= m,
                u >= 1,
                m >= 1,
        ;
        if r < m * u {
            assert(fp_pow_spec(m * u, kappa) > v);
            assert(false);
        }
        if r > m * u {
            lemma_fp_pow_whole_above(m, kappa);
            lemma_fp_pow_mono_base(m * u + 1, r, kappa);
            assert(kappa * pow(m as int, (kappa - 1) as nat) >= 1) by (nonlinear_arith)
                requires
                    kappa >= 1,
                    pow(m as int, (kappa - 1) as nat) >= 1,
            ;
            assert(fp_pow_spec(r, kappa) > v);
            assert(fp_pow_spec(r, kappa) <= v || r == 0);
            assert(false);
        }
    }
}

/// Law: for a fixed invariant_k and exponent, the supply read off the curve
/// is non-decreasing in the reserve backing it.
pub proof fn lemma_supply_monotone_in_reserve(
    invariant_k: nat,
    kappa: nat,
    r1: nat,
    r2: nat,
    s1: nat,
    s2: nat,
)
    requires
        r1 <= r2,
        is_nth_root(fp_mul_spec(invariant_k, r1), kappa, s1),
        is_nth_root(fp_mul_spec(invariant_k, r2), kappa, s2),
    ensures
        s1 <= s2,
{
    let v1 = fp_mul_spec(invariant_k, r1);
    let v2 = fp_mul_spec(invariant_k, r2);
    lemma_fp_mul_mono(invariant_k, r1, invariant_k, r2);
    if s1 > s2 {
        assert(s1 <= v1 <= v2);
        assert(fp_pow_spec(s1, kappa) > v2);
        assert(fp_pow_spec(s1, kappa) <= v1 || s1 == 0);
        assert(false);
    }
}

} // verus!
