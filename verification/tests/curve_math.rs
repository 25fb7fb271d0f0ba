use commons_abc::admin_update_params;
use commons_abc::buy_tokens;
use commons_abc::compute_fee;
use commons_abc::compute_invariant;
use commons_abc::initialize_curve;
use commons_abc::nth_root;
use commons_abc::precise_from_bytes;
use commons_abc::precise_from_u64;
use commons_abc::precise_to_bytes;
use commons_abc::precise_to_u64;
use commons_abc::reserve_delta_for_burn;
use commons_abc::reserve_from_supply;
use commons_abc::sell_tokens;
use commons_abc::split_with_friction;
use commons_abc::supply_from_reserve;
use commons_abc::AccountRole;
use commons_abc::CommonsAbcError;
use commons_abc::CurveConfig;
use commons_abc::Precise;
use commons_abc::TokenOp;

fn test_config(kappa: u64, friction: u64, initial_reserve: u64, initial_supply: u64) -> CurveConfig {
    initialize_curve(
        kappa,
        1,
        1,
        friction,
        initial_reserve,
        initial_supply,
        [1u8; 32],
        [2u8; 32],
        [3u8; 32],
        [4u8; 32],
        [5u8; 32],
        255,
    )
    .unwrap()
}

fn stored_invariant(config: &CurveConfig) -> Precise {
    precise_from_bytes(&config.invariant_k).unwrap()
}

#[test]
fn buy_and_sell_round_trip() {
    let config = test_config(2, 50_000, 1_000_000, 1_000_000);
    let buy = buy_tokens(&config, 0, 1_000_000).unwrap();
    assert!(buy.minted_tokens > 0);
    assert!(buy.common_pool_share > 0);
    let sell = sell_tokens(&config, buy.minted_tokens, buy.minted_tokens).unwrap();
    assert!(sell.net_payout > 0);
}

#[test]
fn simulate_multiple_curve_parameters() {
    let scenarios = vec![
        (2u64, 1u64, 50_000u64, 1_000_000u64),
        (3, 2, 100_000, 2_000_000),
        (4, 2, 150_000, 3_000_000),
    ];
    for (kappa, exponent, friction, deposit) in scenarios {
        let config = initialize_curve(
            kappa,
            exponent,
            1,
            friction,
            1_000_000,
            1_000_000,
            [1u8; 32],
            [2u8; 32],
            [3u8; 32],
            [4u8; 32],
            [5u8; 32],
            255,
        )
        .unwrap();
        match buy_tokens(&config, 0, deposit) {
            Ok(buy) => {
                assert!(buy.minted_tokens > 0);
                assert!(buy.common_pool_share > 0);
                let sell = sell_tokens(&config, buy.minted_tokens, buy.minted_tokens).unwrap();
                assert!(sell.net_payout > 0);
            }
            Err(e) => {
                // The steepest configuration drives the root search past
                // 256 bits; the engine must refuse it rather than settle
                // on a lossy value, and it must be the only one to fail.
                assert_eq!(e, CommonsAbcError::MathOverflow);
                assert_eq!(kappa, 4);
            }
        }
    }
}

#[test]
fn scenario_exact_buy_quantities() {
    let config = test_config(2, 50_000, 1_000_000, 1_000_000);
    let stored: u64 = precise_to_u64(&stored_invariant(&config)).unwrap();
    assert_eq!(stored, 1_000_000);

    let buy = buy_tokens(&config, 0, 1_000_000).unwrap();
    assert_eq!(buy.reserve_share, 950_000);
    assert_eq!(buy.common_pool_share, 50_000);
    assert_eq!(buy.minted_tokens, 974_679);
    assert_eq!(
        buy.ops,
        vec![
            TokenOp::Transfer {
                from: AccountRole::UserReserve,
                to: AccountRole::ReserveVault,
                amount: 1_000_000,
            },
            TokenOp::Transfer {
                from: AccountRole::ReserveVault,
                to: AccountRole::CommonsTreasury,
                amount: 50_000,
            },
            TokenOp::MintTo { to: AccountRole::UserCommons, amount: 974_679 },
        ],
    );
}

#[test]
fn scenario_sell_back_minted_amount() {
    let config = test_config(2, 50_000, 1_000_000, 1_000_000);
    let minted: u64 = 974_679;
    let delta: u64 = reserve_delta_for_burn(minted, 0, &config).unwrap();
    assert_eq!(delta, 949_999);
    let tribute: u64 = compute_fee(delta, 50_000).unwrap();
    assert_eq!(tribute, 47_499);

    let sell = sell_tokens(&config, minted, minted).unwrap();
    assert_eq!(sell.reserve_delta, delta);
    assert_eq!(sell.exit_tribute, tribute);
    assert_eq!(sell.net_payout + sell.exit_tribute, sell.reserve_delta);
    assert_eq!(
        sell.ops,
        vec![
            TokenOp::Burn { from: AccountRole::UserCommons, amount: minted },
            TokenOp::Transfer {
                from: AccountRole::ReserveVault,
                to: AccountRole::UserReserve,
                amount: sell.net_payout,
            },
            TokenOp::Transfer {
                from: AccountRole::ReserveVault,
                to: AccountRole::CommonsTreasury,
                amount: sell.exit_tribute,
            },
        ],
    );
}

#[test]
fn split_rebuilds_amount_and_floors_fee() {
    assert_eq!(split_with_friction(1_000_000, 50_000).unwrap(), (950_000, 50_000));
    assert_eq!(split_with_friction(1, 500_000).unwrap(), (1, 0));
    assert_eq!(split_with_friction(7, 142_857).unwrap(), (7, 0));
    assert_eq!(split_with_friction(999_999, 333_333).unwrap(), (666_667, 333_332));
    for (amount, friction) in [(123_456_789u64, 1u64), (17, 999_999), (0, 400_000)] {
        let (net, pool) = split_with_friction(amount, friction).unwrap();
        assert_eq!(net + pool, amount);
        assert_eq!(pool as u128, amount as u128 * friction as u128 / 1_000_000);
    }
}

#[test]
fn split_friction_boundaries() {
    assert_eq!(split_with_friction(12_345, 1_000_000).unwrap(), (0, 12_345));
    assert_eq!(split_with_friction(12_345, 0).unwrap(), (12_345, 0));
    assert_eq!(
        split_with_friction(12_345, 1_000_001),
        Err(CommonsAbcError::InvalidFriction)
    );
}

#[test]
fn compute_fee_matches_split_pool_share() {
    for (amount, friction) in [(1_000_000u64, 50_000u64), (999_999, 333_333), (1, 500_000)] {
        let (_, pool) = split_with_friction(amount, friction).unwrap();
        assert_eq!(compute_fee(amount, friction).unwrap(), pool);
    }
    assert_eq!(compute_fee(5, 1_000_001), Err(CommonsAbcError::InvalidFriction));
}

#[test]
fn buy_with_full_friction_mints_nothing() {
    let config = test_config(2, 1_000_000, 1_000_000, 1_000_000);
    assert_eq!(buy_tokens(&config, 0, 1_000), Err(CommonsAbcError::ZeroMint));
}

#[test]
fn buy_of_zero_fails_with_zero_mint() {
    let config = test_config(2, 50_000, 1_000_000, 1_000_000);
    assert_eq!(buy_tokens(&config, 500_000, 0), Err(CommonsAbcError::ZeroMint));
}

#[test]
fn initialize_with_zero_reserve_fails_with_overflow() {
    let r = initialize_curve(
        2,
        1,
        1,
        50_000,
        0,
        1_000_000,
        [1u8; 32],
        [2u8; 32],
        [3u8; 32],
        [4u8; 32],
        [5u8; 32],
        255,
    );
    assert_eq!(r.err(), Some(CommonsAbcError::MathOverflow));
}

#[test]
fn initialize_with_invalid_friction_is_rejected() {
    let r = initialize_curve(
        2,
        1,
        1,
        1_000_001,
        1_000_000,
        1_000_000,
        [1u8; 32],
        [2u8; 32],
        [3u8; 32],
        [4u8; 32],
        [5u8; 32],
        255,
    );
    assert_eq!(r.err(), Some(CommonsAbcError::InvalidFriction));
}

#[test]
fn nth_root_is_exact_on_perfect_powers() {
    let cube = precise_from_u64(125).unwrap();
    let root: u64 = precise_to_u64(&nth_root(&cube, 3).unwrap()).unwrap();
    assert_eq!(root, 5);

    let square = precise_from_u64(1_000_000).unwrap();
    let root2: u64 = precise_to_u64(&nth_root(&square, 2).unwrap()).unwrap();
    assert_eq!(root2, 1_000);

    let zero = precise_from_u64(0).unwrap();
    let root0: u64 = precise_to_u64(&nth_root(&zero, 5).unwrap()).unwrap();
    assert_eq!(root0, 0);
}

#[test]
fn supply_is_monotone_in_reserve() {
    let config = test_config(2, 0, 1_000_000, 1_000_000);
    let k = stored_invariant(&config);
    let mut previous: u64 = 0;
    for reserve in [0u64, 1, 100, 10_000, 950_000, 1_000_000, 5_000_000] {
        let s = supply_from_reserve(precise_from_u64(reserve).unwrap(), &k, 2).unwrap();
        let whole: u64 = precise_to_u64(&s).unwrap();
        assert!(previous <= whole);
        previous = whole;
    }
}

#[test]
fn round_trip_never_gains_reserve() {
    let config = test_config(2, 0, 1_000_000, 1_000_000);
    let k = stored_invariant(&config);
    for reserve in [1u64, 2, 123_456, 950_000, 1_000_000, 7_654_321] {
        let s = supply_from_reserve(precise_from_u64(reserve).unwrap(), &k, 2).unwrap();
        let back = reserve_from_supply(&s, &k, 2).unwrap();
        let whole: u64 = precise_to_u64(&back).unwrap();
        assert!(whole <= reserve);
    }
}

#[test]
fn invariant_bytes_round_trip_bit_exactly() {
    let k = compute_invariant(1_000_000, 1_000_000, 2).unwrap();
    let bytes = precise_to_bytes(&k);
    let restored = precise_from_bytes(&bytes).unwrap();
    assert_eq!(precise_to_bytes(&restored), bytes);
    let a: u64 = precise_to_u64(&restored).unwrap();
    let b: u64 = precise_to_u64(&k).unwrap();
    assert_eq!(a, b);
}

#[test]
fn whole_conversion_fails_beyond_64_bits() {
    let k = compute_invariant(u64::MAX, 1, 2).unwrap();
    assert_eq!(precise_to_u64(&k), Err(CommonsAbcError::MathOverflow));
}

#[test]
fn admin_update_applies_only_given_fields() {
    let mut config = test_config(2, 50_000, 1_000_000, 1_000_000);
    let before = config.invariant_k;
    admin_update_params(&mut config, Some(3), None, Some(7), Some(100_000)).unwrap();
    assert_eq!(config.kappa, 3);
    assert_eq!(config.exponent, 1);
    assert_eq!(config.initial_price, 7);
    assert_eq!(config.friction, 100_000);
    assert_eq!(config.invariant_k, before);

    let r = admin_update_params(&mut config, Some(9), None, None, Some(1_000_001));
    assert_eq!(r, Err(CommonsAbcError::InvalidFriction));
    assert_eq!(config.kappa, 3);
    assert_eq!(config.friction, 100_000);
    assert_eq!(config.invariant_k, before);
}

#[test]
fn sell_more_than_supply_is_rejected() {
    let config = test_config(2, 50_000, 1_000_000, 1_000_000);
    assert_eq!(
        sell_tokens(&config, 10, 11),
        Err(CommonsAbcError::InsufficientSupply)
    );
}

#[test]
fn sell_of_dust_fails_with_zero_payout() {
    let config = test_config(2, 50_000, 1_000_000, 1_000_000);
    assert_eq!(sell_tokens(&config, 100, 1), Err(CommonsAbcError::ZeroPayout));
}
