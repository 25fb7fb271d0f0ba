//! An augmented bonding curve settlement engine.
//!
//! The engine prices issuance and redemption of a derivative token against a
//! reserve asset through the invariant `supply^kappa / reserve = K`, fixed at
//! curve creation.  Every deposit and withdrawal is split against a friction
//! rate (parts per million) whose skim goes to a common pool.  All arithmetic
//! is unsigned 256-bit fixed point; any overflow, underflow or division by
//! zero aborts the operation with a typed error and no partial effect.

use vstd::prelude::*;

pub mod curve;
pub mod precise;
pub mod settle;
pub mod u256;

pub use curve::compute_fee;
pub use curve::compute_invariant;
pub use curve::nth_root;
pub use curve::reserve_from_supply;
pub use curve::split_with_friction;
pub use curve::supply_from_reserve;
pub use curve::FEE_DENOMINATOR;
pub use precise::precise_from_bytes;
pub use precise::precise_from_u64;
pub use precise::precise_to_bytes;
pub use precise::precise_to_u64;
pub use precise::Precise;
pub use precise::UNIT;
pub use settle::admin_update_params;
pub use settle::buy_tokens;
pub use settle::initialize_curve;
pub use settle::minted_tokens_for_deposit;
pub use settle::reserve_delta_for_burn;
pub use settle::sell_tokens;
pub use settle::AccountRole;
pub use settle::BuyOutcome;
pub use settle::CurveConfig;
pub use settle::SellOutcome;
pub use settle::TokenOp;

verus! {

/// Failure taxonomy of the engine.  Every failure is fatal to the enclosing
/// operation; nothing is retried and no balance is touched on a failed path.
#[derive(Clone, Copy, Debug, PartialEq, Eq, Structural)]
pub enum CommonsAbcError {
    /// A checked arithmetic step (add/sub/mul/div/pow, root search) left the
    /// representable range or divided by zero.
    MathOverflow,
    /// A buy would issue zero derivative tokens.
    ZeroMint,
    /// A sell would return zero reserve asset after fees.
    ZeroPayout,
    /// A sell burns more than the circulating supply.
    InsufficientSupply,
    /// A friction rate above 1_000_000 parts per million was supplied.
    InvalidFriction,
}

} // verus!
