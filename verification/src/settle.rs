//! The settlement orchestrator.
//!
//! Buy and sell are pure state transitions on `(reserve, supply)`: each
//! computes every quantity and validates every non-overflow and non-zero
//! condition first, and only then describes the delegated token movements,
//! in order, as data.  A failure therefore never leaves a half-applied
//! settlement: the caller receives the error and no movement list.

use vstd::prelude::*;

use crate::curve::compute_fee;
use crate::curve::compute_invariant;
use crate::curve::invariant_spec;
use crate::precise::fp_pow_fits;
use crate::curve::is_nth_root;
use crate::curve::lemma_pool_share_le_amount;
use crate::curve::lemma_root_of_eq;
use crate::curve::lemma_supply_monotone_in_reserve;
use crate::curve::pool_share_spec;
use crate::curve::reserve_from_supply;
use crate::curve::root_of;
use crate::curve::split_with_friction;
use crate::curve::supply_from_reserve;
use crate::curve::FEE_DENOMINATOR;
use crate::precise::fp_div_spec;
use crate::precise::fp_mul_spec;
use crate::precise::fp_pow_spec;
use crate::precise::precise_from_bytes;
use crate::precise::precise_from_u64;
use crate::precise::precise_to_bytes;
use crate::precise::precise_to_u64;
use crate::precise::UNIT;
use crate::u256::le_value;
use crate::u256::u256_bound;
use crate::CommonsAbcError;

verus! {

/// The engine-facing role of an account a settlement touches; the host
/// maps each role to a concrete ledger account.
#[derive(Clone, Copy, Debug, PartialEq, Eq, Structural)]
pub enum AccountRole {
    /// The caller's reserve-asset account.
    UserReserve,
    /// The caller's derivative-token account.
    UserCommons,
    /// The engine's reserve vault.
    ReserveVault,
    /// The shared common-pool treasury.
    CommonsTreasury,
}

/// One delegated value movement, issued to the external token service.
#[derive(Clone, Copy, Debug, PartialEq, Eq, Structural)]
pub enum TokenOp {
    /// Move `amount` of the reserve asset between the two accounts.
    Transfer { from: AccountRole, to: AccountRole, amount: u64 },
    /// Issue `amount` new derivative tokens to `to`.
    MintTo { to: AccountRole, amount: u64 },
    /// Destroy `amount` derivative tokens held by `from`.
    Burn { from: AccountRole, amount: u64 },
}

/// The persisted configuration record, one per curve instance.  The stored
/// 32-byte constant is fixed at creation and never touched by buys, sells
/// or parameter updates.
pub struct CurveConfig {
    /// Curve exponent: `supply^kappa / reserve` is the preserved constant.
    pub kappa: u64,
    /// Shape parameter kept for external pricing display only.
    pub exponent: u64,
    /// Shape parameter kept for external pricing display only.
    pub initial_price: u64,
    /// Fee rate in parts per million, at most one million.
    pub friction: u64,
    /// Identifier of the derivative token.
    pub commons_token_mint: [u8; 32],
    /// Identifier of the reserve asset.
    pub reserve_mint: [u8; 32],
    /// Identifier of the account holding the reserve.
    pub reserve_vault: [u8; 32],
    /// Identifier of the common-pool account.
    pub commons_treasury: [u8; 32],
    /// Nonce of the engine's derived signing authority.
    pub curve_config_bump: u8,
    /// Identifier of the administrative authority.
    pub authority: [u8; 32],
    /// The curve constant, 32 bytes little-endian.
    pub invariant_k: [u8; 32],
}

impl CurveConfig {
    /// The stored curve constant as a number.
    pub open spec fn k_value(self) -> nat {
        le_value(self.invariant_k@)
    }

    /// The record's own invariant: the friction rate is a valid
    /// parts-per-million fraction.
    pub open spec fn wf(self) -> bool {
        self.friction <= FEE_DENOMINATOR
    }
}

/// Conditions under which converting the whole reserve `reserve` under
/// constant `k` and exponent `kappa` stays inside 256 bits everywhere the
/// root search can probe.
pub open spec fn conversion_safe(k: nat, reserve: nat, kappa: nat) -> bool {
    &&& k * (reserve * (UNIT as nat)) < u256_bound()
    &&& forall|s: nat| s <= fp_mul_spec(k, reserve * (UNIT as nat)) ==> fp_pow_fits(s, kappa)
}

/// The supply the curve assigns to a whole reserve amount, as a raw
/// fixed-point quantity.
pub open spec fn supply_at(k: nat, reserve: nat, kappa: nat) -> nat {
    root_of(fp_mul_spec(k, reserve * (UNIT as nat)), kappa)
}

/// The reserve the curve assigns to a whole supply amount, as a raw
/// fixed-point quantity.
pub open spec fn reserve_at(k: nat, supply: nat, kappa: nat) -> nat {
    fp_div_spec(fp_pow_spec(supply * (UNIT as nat), kappa), k)
}

/// Both conversions of a deposit stay inside 256 bits: nothing on the way
/// from either reserve to its supply can overflow.
pub open spec fn deposit_in_range(k: nat, kappa: nat, rb: nat, ra: nat) -> bool {
    &&& conversion_safe(k, rb, kappa)
    &&& conversion_safe(k, ra, kappa)
}

/// Conditions under which a deposit moving the reserve from `rb` to `ra`
/// is owed a successful mint: both conversions stay in range and the
/// supply difference is a positive whole number of tokens within 64 bits.
pub open spec fn deposit_succeeds(k: nat, kappa: nat, rb: nat, ra: nat) -> bool {
    &&& deposit_in_range(k, kappa, rb, ra)
    &&& rb <= ra
    &&& 1 <= (supply_at(k, ra, kappa) - supply_at(k, rb, kappa)) / (UNIT as int)
    &&& (supply_at(k, ra, kappa) - supply_at(k, rb, kappa)) / (UNIT as int) <= u64::MAX
}

/// The derivative tokens a deposit mints: the whole part of the supply
/// difference the invariant assigns to the reserve before and after.
/// Fails with `ZeroMint` when the difference rounds to no whole token, and
/// with `MathOverflow` when a conversion leaves 256 bits, the difference
/// is negative, or it exceeds 64 bits.
pub fn minted_tokens_for_deposit(reserve_before: u64, reserve_after: u64, config: &CurveConfig) -> (r:
    Result<u64, CommonsAbcError>)
    ensures
        r matches Ok(x) ==> {
            let sb = supply_at(config.k_value(), reserve_before as nat, config.kappa as nat);
            let sa = supply_at(config.k_value(), reserve_after as nat, config.kappa as nat);
            &&& is_nth_root(
                fp_mul_spec(config.k_value(), (reserve_before as nat) * (UNIT as nat)),
                config.kappa as nat,
                sb,
            )
            &&& is_nth_root(
                fp_mul_spec(config.k_value(), (reserve_after as nat) * (UNIT as nat)),
                config.kappa as nat,
                sa,
            )
            &&& sb <= sa
            &&& x as int == (sa - sb) / (UNIT as int)
            &&& x > 0
        },
        r is Err ==> r == Err::<u64, CommonsAbcError>(CommonsAbcError::ZeroMint) || r == Err::<
            u64,
            CommonsAbcError,
        >(CommonsAbcError::MathOverflow),
        r == Err::<u64, CommonsAbcError>(CommonsAbcError::ZeroMint) ==> {
            let sb = supply_at(config.k_value(), reserve_before as nat, config.kappa as nat);
            let sa = supply_at(config.k_value(), reserve_after as nat, config.kappa as nat);
            &&& sb <= sa
            &&& (sa - sb) / (UNIT as int) == 0
        },
        deposit_succeeds(
            config.k_value(),
            config.kappa as nat,
            reserve_before as nat,
            reserve_after as nat,
        ) ==> r is Ok,
        ({
            let sb = supply_at(config.k_value(), reserve_before as nat, config.kappa as nat);
            let sa = supply_at(config.k_value(), reserve_after as nat, config.kappa as nat);
            &&& deposit_in_range(
                config.k_value(),
                config.kappa as nat,
                reserve_before as nat,
                reserve_after as nat,
            )
            &&& reserve_before <= reserve_after
            &&& (sa - sb) / (UNIT as int) == 0
        }) ==> r == Err::<u64, CommonsAbcError>(CommonsAbcError::ZeroMint),
        ({
            let sb = supply_at(config.k_value(), reserve_before as nat, config.kappa as nat);
            let sa = supply_at(config.k_value(), reserve_after as nat, config.kappa as nat);
            &&& deposit_in_range(
                config.k_value(),
                config.kappa as nat,
                reserve_before as nat,
                reserve_after as nat,
            )
            &&& reserve_before <= reserve_after
            &&& (sa - sb) / (UNIT as int) > u64::MAX
        }) ==> r == Err::<u64, CommonsAbcError>(CommonsAbcError::MathOverflow),
{
    let ghost k = config.k_value();
    let ghost kap = config.kappa as nat;
    let invariant_k = match precise_from_bytes(&config.invariant_k) {
        Ok(p) => p,
        Err(e) => {
            return Err(e);
        },
    };
    let rb = match precise_from_u64(reserve_before) {
        Ok(p) => p,
        Err(e) => {
            return Err(e);
        },
    };
    let ra = match precise_from_u64(reserve_after) {
        Ok(p) => p,
        Err(e) => {
            return Err(e);
        },
    };
    let supply_before = match supply_from_reserve(rb, &invariant_k, config.kappa) {
        Ok(p) => p,
        Err(_) => {
            return Err(CommonsAbcError::MathOverflow);
        },
    };
    let supply_after = match supply_from_reserve(ra, &invariant_k, config.kappa) {
        Ok(p) => p,
        Err(_) => {
            return Err(CommonsAbcError::MathOverflow);
        },
    };
    proof {
        lemma_root_of_eq(
            fp_mul_spec(k, (reserve_before as nat) * (UNIT as nat)),
            kap,
            supply_before.value(),
        );
        lemma_root_of_eq(
            fp_mul_spec(k, (reserve_after as nat) * (UNIT as nat)),
            kap,
            supply_after.value(),
        );
    }
    let minted = match supply_after.checked_sub(&supply_before) {
        Some(p) => p,
        None => {
            proof {
                if reserve_before <= reserve_after {
                    lemma_supply_monotone_in_reserve(
                        k,
                        kap,
                        (reserve_before as nat) * (UNIT as nat),
                        (reserve_after as nat) * (UNIT as nat),
                        supply_before.value(),
                        supply_after.value(),
                    );
                }
            }
            return Err(CommonsAbcError::MathOverflow);
        },
    };
    let minted_u64 = match precise_to_u64(&minted) {
        Ok(x) => x,
        Err(e) => {
            return Err(e);
        },
    };
    if minted_u64 == 0 {
        return Err(CommonsAbcError::ZeroMint);
    }
    Ok(minted_u64)
}

/// Both inverse conversions of a burn stay inside 256 bits and the stored
/// constant is not zero: nothing on the way from either supply to its
/// reserve can overflow.
pub open spec fn burn_in_range(k: nat, kappa: nat, sb: nat, sa: nat) -> bool {
    &&& fp_pow_fits(sb * (UNIT as nat), kappa)
    &&& fp_pow_fits(sa * (UNIT as nat), kappa)
    &&& fp_pow_spec(sb * (UNIT as nat), kappa) * (UNIT as nat) < u256_bound()
    &&& fp_pow_spec(sa * (UNIT as nat), kappa) * (UNIT as nat) < u256_bound()
    &&& k != 0
}

/// Conditions under which a burn moving the supply from `sb` down to `sa`
/// is owed a successful payout: both inverse conversions stay in range and
/// the reserve difference is a positive whole number within 64 bits.
pub open spec fn burn_succeeds(k: nat, kappa: nat, sb: nat, sa: nat) -> bool {
    &&& burn_in_range(k, kappa, sb, sa)
    &&& sa <= sb
    &&& 1 <= (reserve_at(k, sb, kappa) - reserve_at(k, sa, kappa)) / (UNIT as int)
    &&& (reserve_at(k, sb, kappa) - reserve_at(k, sa, kappa)) / (UNIT as int) <= u64::MAX
}

/// The reserve a burn releases: the whole part of the reserve difference
/// the invariant assigns to the supply before and after.  Fails with
/// `ZeroPayout` when the difference rounds to no whole unit, and with
/// `MathOverflow` when a conversion leaves 256 bits, the constant is zero,
/// the difference is negative, or it exceeds 64 bits.
pub fn reserve_delta_for_burn(supply_before: u64, supply_after: u64, config: &CurveConfig) -> (r:
    Result<u64, CommonsAbcError>)
    ensures
        r matches Ok(x) ==> {
            let pb = reserve_at(config.k_value(), supply_before as nat, config.kappa as nat);
            let pa = reserve_at(config.k_value(), supply_after as nat, config.kappa as nat);
            &&& pa <= pb
            &&& x as int == (pb - pa) / (UNIT as int)
            &&& x > 0
        },
        r is Err ==> r == Err::<u64, CommonsAbcError>(CommonsAbcError::ZeroPayout) || r == Err::<
            u64,
            CommonsAbcError,
        >(CommonsAbcError::MathOverflow),
        r == Err::<u64, CommonsAbcError>(CommonsAbcError::ZeroPayout) <==> ({
            let pb = reserve_at(config.k_value(), supply_before as nat, config.kappa as nat);
            let pa = reserve_at(config.k_value(), supply_after as nat, config.kappa as nat);
            &&& burn_in_range(
                config.k_value(),
                config.kappa as nat,
                supply_before as nat,
                supply_after as nat,
            )
            &&& pa <= pb
            &&& (pb - pa) / (UNIT as int) == 0
        }),
        r is Ok <==> ({
            let pb = reserve_at(config.k_value(), supply_before as nat, config.kappa as nat);
            let pa = reserve_at(config.k_value(), supply_after as nat, config.kappa as nat);
            &&& burn_in_range(
                config.k_value(),
                config.kappa as nat,
                supply_before as nat,
                supply_after as nat,
            )
            &&& pa <= pb
            &&& 1 <= (pb - pa) / (UNIT as int)
            &&& (pb - pa) / (UNIT as int) <= u64::MAX
        }),
        burn_succeeds(
            config.k_value(),
            config.kappa as nat,
            supply_before as nat,
            supply_after as nat,
        ) ==> r is Ok,
{
    let ghost k = config.k_value();
    let ghost kap = config.kappa as nat;
    let invariant_k = match precise_from_bytes(&config.invariant_k) {
        Ok(p) => p,
        Err(e) => {
            return Err(e);
        },
    };
    let sb = match precise_from_u64(supply_before) {
        Ok(p) => p,
        Err(e) => {
            return Err(e);
        },
    };
    let sa = match precise_from_u64(supply_after) {
        Ok(p) => p,
        Err(e) => {
            return Err(e);
        },
    };
    let reserve_before = match reserve_from_supply(&sb, &invariant_k, config.kappa) {
        Ok(p) => p,
        Err(_) => {
            return Err(CommonsAbcError::MathOverflow);
        },
    };
    let reserve_after = match reserve_from_supply(&sa, &invariant_k, config.kappa) {
        Ok(p) => p,
        Err(_) => {
            return Err(CommonsAbcError::MathOverflow);
        },
    };
    let delta = match reserve_before.checked_sub(&reserve_after) {
        Some(p) => p,
        None => {
            proof {
                if supply_after <= supply_before {
                    lemma_reserve_monotone_in_supply(k, kap, supply_after as nat, supply_before as nat);
                }
            }
            return Err(CommonsAbcError::MathOverflow);
        },
    };
    let delta_u64 = match precise_to_u64(&delta) {
        Ok(x) => x,
        Err(e) => {
            return Err(e);
        },
    };
    if delta_u64 == 0 {
        return Err(CommonsAbcError::ZeroPayout);
    }
    Ok(delta_u64)
}

/// The outcome of a buy: the fee split, the minted amount, and the
/// delegated movements to issue, in order.
#[derive(Debug, PartialEq, Eq)]
pub struct BuyOutcome {
    /// Net share of the deposit that backs the curve.
    pub reserve_share: u64,
    /// Share of the deposit skimmed into the common pool.
    pub common_pool_share: u64,
    /// Derivative tokens minted to the depositor.
    pub minted_tokens: u64,
    /// The delegated movements, in issue order.
    pub ops: Vec<TokenOp>,
}

/// The movements a buy issues: the gross deposit into the vault, the skim
/// into the common pool (skipped entirely when it is zero), then the mint.
pub open spec fn buy_ops_spec(amount: u64, pool_share: u64, minted: u64) -> Seq<TokenOp> {
    let gross = TokenOp::Transfer {
        from: AccountRole::UserReserve,
        to: AccountRole::ReserveVault,
        amount,
    };
    let skim = TokenOp::Transfer {
        from: AccountRole::ReserveVault,
        to: AccountRole::CommonsTreasury,
        amount: pool_share,
    };
    let issue = TokenOp::MintTo { to: AccountRole::UserCommons, amount: minted };
    if pool_share == 0 {
        seq![gross, issue]
    } else {
        seq![gross, skim, issue]
    }
}

/// A buy: splits the deposit against the friction rate, adds the net share
/// to the reserve, mints the supply difference the invariant assigns, and
/// issues the movements in order.  Every quantity is computed and checked
/// before any movement is described.
pub fn buy_tokens(config: &CurveConfig, reserve_before: u64, amount: u64) -> (r: Result<
    BuyOutcome,
    CommonsAbcError,
>)
    ensures
        r == Err::<BuyOutcome, CommonsAbcError>(CommonsAbcError::InvalidFriction)
            <==> config.friction > FEE_DENOMINATOR,
        r matches Ok(o) ==> {
            let pool = pool_share_spec(amount as nat, config.friction as nat);
            let net = (amount as nat - pool) as nat;
            let sb = supply_at(config.k_value(), reserve_before as nat, config.kappa as nat);
            let sa = supply_at(config.k_value(), reserve_before as nat + net, config.kappa as nat);
            &&& pool <= amount
            &&& o.common_pool_share as nat == pool
            &&& o.reserve_share as nat == net
            &&& reserve_before as nat + net <= u64::MAX
            &&& is_nth_root(
                fp_mul_spec(config.k_value(), (reserve_before as nat) * (UNIT as nat)),
                config.kappa as nat,
                sb,
            )
            &&& is_nth_root(
                fp_mul_spec(config.k_value(), (reserve_before as nat + net) * (UNIT as nat)),
                config.kappa as nat,
                sa,
            )
            &&& sb <= sa
            &&& o.minted_tokens as int == (sa - sb) / (UNIT as int)
            &&& o.minted_tokens > 0
            &&& o.ops@ == buy_ops_spec(amount, o.common_pool_share, o.minted_tokens)
        },
        r is Err ==> {
            ||| r == Err::<BuyOutcome, CommonsAbcError>(CommonsAbcError::InvalidFriction)
            ||| r == Err::<BuyOutcome, CommonsAbcError>(CommonsAbcError::MathOverflow)
            ||| r == Err::<BuyOutcome, CommonsAbcError>(CommonsAbcError::ZeroMint)
        },
        amount == 0 && config.friction <= FEE_DENOMINATOR ==> r == Err::<
            BuyOutcome,
            CommonsAbcError,
        >(CommonsAbcError::ZeroMint) || r == Err::<BuyOutcome, CommonsAbcError>(
            CommonsAbcError::MathOverflow,
        ),
        config.friction == FEE_DENOMINATOR ==> r == Err::<BuyOutcome, CommonsAbcError>(
            CommonsAbcError::ZeroMint,
        ) || r == Err::<BuyOutcome, CommonsAbcError>(CommonsAbcError::MathOverflow),
        config.friction == FEE_DENOMINATOR && conversion_safe(
            config.k_value(),
            reserve_before as nat,
            config.kappa as nat,
        ) ==> r == Err::<BuyOutcome, CommonsAbcError>(CommonsAbcError::ZeroMint),
        amount == 0 && config.friction <= FEE_DENOMINATOR && conversion_safe(
            config.k_value(),
            reserve_before as nat,
            config.kappa as nat,
        ) ==> r == Err::<BuyOutcome, CommonsAbcError>(CommonsAbcError::ZeroMint),
        ({
            let pool = pool_share_spec(amount as nat, config.friction as nat);
            &&& config.wf()
            &&& pool <= amount
            &&& reserve_before as nat + (amount as nat - pool) <= u64::MAX
            &&& deposit_succeeds(
                config.k_value(),
                config.kappa as nat,
                reserve_before as nat,
                (reserve_before as nat + (amount as nat - pool)) as nat,
            )
        }) ==> r is Ok,
        ({
            let pool = pool_share_spec(amount as nat, config.friction as nat);
            let ra = (reserve_before as nat + (amount as nat - pool)) as nat;
            let sb = supply_at(config.k_value(), reserve_before as nat, config.kappa as nat);
            let sa = supply_at(config.k_value(), ra, config.kappa as nat);
            &&& config.wf()
            &&& pool <= amount
            &&& reserve_before as nat + (amount as nat - pool) <= u64::MAX
            &&& deposit_in_range(config.k_value(), config.kappa as nat, reserve_before as nat, ra)
            &&& (sa - sb) / (UNIT as int) == 0
        }) ==> r == Err::<BuyOutcome, CommonsAbcError>(CommonsAbcError::ZeroMint),
        ({
            let pool = pool_share_spec(amount as nat, config.friction as nat);
            let ra = (reserve_before as nat + (amount as nat - pool)) as nat;
            let sb = supply_at(config.k_value(), reserve_before as nat, config.kappa as nat);
            let sa = supply_at(config.k_value(), ra, config.kappa as nat);
            &&& config.wf()
            &&& pool <= amount
            &&& reserve_before as nat + (amount as nat - pool) <= u64::MAX
            &&& deposit_in_range(config.k_value(), config.kappa as nat, reserve_before as nat, ra)
            &&& (sa - sb) / (UNIT as int) > u64::MAX
        }) ==> r == Err::<BuyOutcome, CommonsAbcError>(CommonsAbcError::MathOverflow),
{
    let shares = match split_with_friction(amount, config.friction) {
        Ok(s) => s,
        Err(e) => {
            return Err(e);
        },
    };
    let reserve_share = shares.0;
    let common_pool_share = shares.1;
    let reserve_after = match reserve_before.checked_add(reserve_share) {
        Some(x) => x,
        None => {
            return Err(CommonsAbcError::MathOverflow);
        },
    };
    let minted_tokens = match minted_tokens_for_deposit(reserve_before, reserve_after, config) {
        Ok(x) => x,
        Err(e) => {
            return Err(e);
        },
    };
    let mut ops: Vec<TokenOp> = Vec::new();
    ops.push(
        TokenOp::Transfer {
            from: AccountRole::UserReserve,
            to: AccountRole::ReserveVault,
            amount,
        },
    );
    if common_pool_share > 0 {
        ops.push(
            TokenOp::Transfer {
                from: AccountRole::ReserveVault,
                to: AccountRole::CommonsTreasury,
                amount: common_pool_share,
            },
        );
    }
    ops.push(TokenOp::MintTo { to: AccountRole::UserCommons, amount: minted_tokens });
    proof {
        assert(ops@ =~= buy_ops_spec(amount, common_pool_share, minted_tokens));
    }
    Ok(BuyOutcome { reserve_share, common_pool_share, minted_tokens, ops })
}

/// The outcome of a sell: the released reserve, its fee split, and the
/// delegated movements to issue, in order.
#[derive(Debug, PartialEq, Eq)]
pub struct SellOutcome {
    /// Reserve the burn releases, before the exit tribute.
    pub reserve_delta: u64,
    /// Share of the released reserve skimmed into the common pool.
    pub exit_tribute: u64,
    /// Reserve paid out to the seller.
    pub net_payout: u64,
    /// The delegated movements, in issue order.
    pub ops: Vec<TokenOp>,
}

/// The movements a sell issues: the burn, the payout to the seller, then
/// the exit tribute into the common pool (skipped entirely when zero).
pub open spec fn sell_ops_spec(amount: u64, net_payout: u64, exit_tribute: u64) -> Seq<TokenOp> {
    let burn = TokenOp::Burn { from: AccountRole::UserCommons, amount };
    let payout = TokenOp::Transfer {
        from: AccountRole::ReserveVault,
        to: AccountRole::UserReserve,
        amount: net_payout,
    };
    let skim = TokenOp::Transfer {
        from: AccountRole::ReserveVault,
        to: AccountRole::CommonsTreasury,
        amount: exit_tribute,
    };
    if exit_tribute == 0 {
        seq![burn, payout]
    } else {
        seq![burn, payout, skim]
    }
}

/// A sell: burns the given supply, releases the reserve difference the
/// invariant assigns, skims the exit tribute, and issues the movements in
/// order.  Every quantity is computed and checked before any movement is
/// described.
pub fn sell_tokens(config: &CurveConfig, supply_before: u64, amount: u64) -> (r: Result<
    SellOutcome,
    CommonsAbcError,
>)
    ensures
        r == Err::<SellOutcome, CommonsAbcError>(CommonsAbcError::InsufficientSupply)
            <==> amount > supply_before,
        r == Err::<SellOutcome, CommonsAbcError>(CommonsAbcError::InvalidFriction)
            ==> config.friction > FEE_DENOMINATOR,
        r matches Ok(o) ==> {
            let pb = reserve_at(config.k_value(), supply_before as nat, config.kappa as nat);
            let pa = reserve_at(
                config.k_value(),
                (supply_before - amount) as nat,
                config.kappa as nat,
            );
            &&& amount <= supply_before
            &&& pa <= pb
            &&& o.reserve_delta as int == (pb - pa) / (UNIT as int)
            &&& o.reserve_delta > 0
            &&& o.exit_tribute as nat == pool_share_spec(
                o.reserve_delta as nat,
                config.friction as nat,
            )
            &&& o.exit_tribute <= o.reserve_delta
            &&& o.net_payout as nat + o.exit_tribute as nat == o.reserve_delta as nat
            &&& o.net_payout > 0
            &&& o.ops@ == sell_ops_spec(amount, o.net_payout, o.exit_tribute)
        },
        r is Err ==> {
            ||| r == Err::<SellOutcome, CommonsAbcError>(CommonsAbcError::InsufficientSupply)
            ||| r == Err::<SellOutcome, CommonsAbcError>(CommonsAbcError::InvalidFriction)
            ||| r == Err::<SellOutcome, CommonsAbcError>(CommonsAbcError::MathOverflow)
            ||| r == Err::<SellOutcome, CommonsAbcError>(CommonsAbcError::ZeroPayout)
        },
        r is Ok <==> ({
            let pb = reserve_at(config.k_value(), supply_before as nat, config.kappa as nat);
            let pa = reserve_at(
                config.k_value(),
                (supply_before - amount) as nat,
                config.kappa as nat,
            );
            let delta = (pb - pa) / (UNIT as int);
            &&& amount <= supply_before
            &&& burn_in_range(
                config.k_value(),
                config.kappa as nat,
                supply_before as nat,
                (supply_before - amount) as nat,
            )
            &&& pa <= pb
            &&& 1 <= delta <= u64::MAX
            &&& config.friction <= FEE_DENOMINATOR
            &&& 1 <= delta - (delta * config.friction) / (FEE_DENOMINATOR as int)
        }),
        r == Err::<SellOutcome, CommonsAbcError>(CommonsAbcError::ZeroPayout) <==> ({
            let pb = reserve_at(config.k_value(), supply_before as nat, config.kappa as nat);
            let pa = reserve_at(
                config.k_value(),
                (supply_before - amount) as nat,
                config.kappa as nat,
            );
            let delta = (pb - pa) / (UNIT as int);
            &&& amount <= supply_before
            &&& burn_in_range(
                config.k_value(),
                config.kappa as nat,
                supply_before as nat,
                (supply_before - amount) as nat,
            )
            &&& pa <= pb
            &&& {
                ||| delta == 0
                ||| (1 <= delta <= u64::MAX && config.friction <= FEE_DENOMINATOR && delta - (
                delta * config.friction) / (FEE_DENOMINATOR as int) == 0)
            }
        }),
        ({
            let delta = (reserve_at(config.k_value(), supply_before as nat, config.kappa as nat)
                - reserve_at(
                config.k_value(),
                (supply_before - amount) as nat,
                config.kappa as nat,
            )) / (UNIT as int);
            &&& config.wf()
            &&& amount <= supply_before
            &&& burn_succeeds(
                config.k_value(),
                config.kappa as nat,
                supply_before as nat,
                (supply_before - amount) as nat,
            )
            &&& 1 <= delta - (delta * config.friction) / (FEE_DENOMINATOR as int)
        }) ==> r is Ok,
{
    let supply_after = match supply_before.checked_sub(amount) {
        Some(x) => x,
        None => {
            return Err(CommonsAbcError::InsufficientSupply);
        },
    };
    let reserve_delta = match reserve_delta_for_burn(supply_before, supply_after, config) {
        Ok(x) => x,
        Err(e) => {
            return Err(e);
        },
    };
    let exit_tribute = match compute_fee(reserve_delta, config.friction) {
        Ok(x) => x,
        Err(e) => {
            return Err(e);
        },
    };
    proof {
        lemma_pool_share_le_amount(reserve_delta as nat, config.friction as nat);
    }
    let net_payout = match reserve_delta.checked_sub(exit_tribute) {
        Some(x) => x,
        None => {
            return Err(CommonsAbcError::MathOverflow);
        },
    };
    if net_payout == 0 {
        return Err(CommonsAbcError::ZeroPayout);
    }
    let mut ops: Vec<TokenOp> = Vec::new();
    ops.push(TokenOp::Burn { from: AccountRole::UserCommons, amount });
    ops.push(
        TokenOp::Transfer {
            from: AccountRole::ReserveVault,
            to: AccountRole::UserReserve,
            amount: net_payout,
        },
    );
    if exit_tribute > 0 {
        ops.push(
            TokenOp::Transfer {
                from: AccountRole::ReserveVault,
                to: AccountRole::CommonsTreasury,
                amount: exit_tribute,
            },
        );
    }
    proof {
        assert(ops@ =~= sell_ops_spec(amount, net_payout, exit_tribute));
    }
    Ok(SellOutcome { reserve_delta, exit_tribute, net_payout, ops })
}

/// Creates the configuration record for a new curve: stores the shape
/// parameters and account identifiers, and computes and persists the
/// invariant from the initial supply and reserve.  Rejects an invalid
/// friction rate, and fails with `MathOverflow` exactly when the constant
/// cannot be computed — a zero initial reserve included.
pub fn initialize_curve(
    kappa: u64,
    exponent: u64,
    initial_price: u64,
    friction: u64,
    initial_reserve: u64,
    initial_supply: u64,
    commons_token_mint: [u8; 32],
    reserve_mint: [u8; 32],
    reserve_vault: [u8; 32],
    commons_treasury: [u8; 32],
    authority: [u8; 32],
    curve_config_bump: u8,
) -> (r: Result<CurveConfig, CommonsAbcError>)
    ensures
        r == Err::<CurveConfig, CommonsAbcError>(CommonsAbcError::InvalidFriction)
            <==> friction > FEE_DENOMINATOR,
        friction <= FEE_DENOMINATOR && initial_reserve == 0 ==> r == Err::<
            CurveConfig,
            CommonsAbcError,
        >(CommonsAbcError::MathOverflow),
        r is Err ==> r == Err::<CurveConfig, CommonsAbcError>(CommonsAbcError::InvalidFriction)
            || r == Err::<CurveConfig, CommonsAbcError>(CommonsAbcError::MathOverflow),
        r is Ok <==> {
            &&& friction <= FEE_DENOMINATOR
            &&& initial_reserve != 0
            &&& fp_pow_fits((initial_supply as nat) * (UNIT as nat), kappa as nat)
            &&& fp_pow_spec((initial_supply as nat) * (UNIT as nat), kappa as nat) * (UNIT as nat)
                < u256_bound()
        },
        r matches Ok(c) ==> {
            &&& c.kappa == kappa
            &&& c.exponent == exponent
            &&& c.initial_price == initial_price
            &&& c.friction == friction
            &&& c.commons_token_mint@ == commons_token_mint@
            &&& c.reserve_mint@ == reserve_mint@
            &&& c.reserve_vault@ == reserve_vault@
            &&& c.commons_treasury@ == commons_treasury@
            &&& c.authority@ == authority@
            &&& c.curve_config_bump == curve_config_bump
            &&& c.k_value() == invariant_spec(
                initial_supply as nat,
                initial_reserve as nat,
                kappa as nat,
            )
            &&& c.wf()
        },
{
    if friction > FEE_DENOMINATOR {
        return Err(CommonsAbcError::InvalidFriction);
    }
    let invariant_k = match compute_invariant(initial_supply, initial_reserve, kappa) {
        Ok(p) => p,
        Err(e) => {
            return Err(e);
        },
    };
    Ok(
        CurveConfig {
            kappa,
            exponent,
            initial_price,
            friction,
            commons_token_mint,
            reserve_mint,
            reserve_vault,
            commons_treasury,
            curve_config_bump,
            authority,
            invariant_k: precise_to_bytes(&invariant_k),
        },
    )
}

/// Applies any subset of the shape parameters, each independently
/// optional, leaving every unset field and the stored invariant untouched.
/// Rejects an invalid friction rate before touching anything, so a failed
/// update leaves the record exactly as it was.
pub fn admin_update_params(
    config: &mut CurveConfig,
    kappa: Option<u64>,
    exponent: Option<u64>,
    initial_price: Option<u64>,
    friction: Option<u64>,
) -> (r: Result<(), CommonsAbcError>)
    ensures
        r is Err <==> (friction matches Some(f) && f > FEE_DENOMINATOR),
        r is Err ==> r == Err::<(), CommonsAbcError>(CommonsAbcError::InvalidFriction),
        r is Err ==> *final(config) == *old(config),
        r is Ok ==> {
            &&& final(config).kappa == (match kappa {
                Some(v) => v,
                None => old(config).kappa,
            })
            &&& final(config).exponent == (match exponent {
                Some(v) => v,
                None => old(config).exponent,
            })
            &&& final(config).initial_price == (match initial_price {
                Some(v) => v,
                None => old(config).initial_price,
            })
            &&& final(config).friction == (match friction {
                Some(v) => v,
                None => old(config).friction,
            })
            &&& final(config).commons_token_mint@ == old(config).commons_token_mint@
            &&& final(config).reserve_mint@ == old(config).reserve_mint@
            &&& final(config).reserve_vault@ == old(config).reserve_vault@
            &&& final(config).commons_treasury@ == old(config).commons_treasury@
            &&& final(config).curve_config_bump == old(config).curve_config_bump
            &&& final(config).authority@ == old(config).authority@
            &&& final(config).invariant_k@ == old(config).invariant_k@
            &&& final(config).k_value() == old(config).k_value()
        },
        old(config).wf() ==> final(config).wf(),
{
    if let Some(f) = friction {
        if f > FEE_DENOMINATOR {
            return Err(CommonsAbcError::InvalidFriction);
        }
    }
    if let Some(v) = kappa {
        config.kappa = v;
    }
    if let Some(v) = exponent {
        config.exponent = v;
    }
    if let Some(v) = initial_price {
        config.initial_price = v;
    }
    if let Some(v) = friction {
        config.friction = v;
    }
    Ok(())
}

/// For a fixed constant and exponent, the reserve read off the curve is
/// non-decreasing in the supply backing it.
pub proof fn lemma_reserve_monotone_in_supply(k: nat, kappa: nat, s1: nat, s2: nat)
    requires
        s1 <= s2,
    ensures
        reserve_at(k, s1, kappa) <= reserve_at(k, s2, kappa),
{
    let u = UNIT as nat;
    crate::precise::lemma_fp_pow_mono_base(s1 * u, s2 * u, kappa);
    if k != 0 {
        let p1 = fp_pow_spec(s1 * u, kappa);
        let p2 = fp_pow_spec(s2 * u, kappa);
        assert(p1 * u <= p2 * u) by (nonlinear_arith)
            requires
                p1 <= p2,
                u >= 0,
        ;
        vstd::arithmetic::div_mod::lemma_div_is_ordered((p1 * u) as int, (p2 * u) as int, k as int);
    }
}

} // verus!
