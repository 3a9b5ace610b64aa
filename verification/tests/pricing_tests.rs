use amm_engine::pricing::{quote, quote_concentrated, quote_constant_product};
use amm_engine::types::{PoolVariant, PricingError, TickBand};

#[test]
fn constant_product_matches_closed_form() {
    // reserves (1000, 1000), fee 30 bp, amount in 100:
    // a = 100 * 9970 = 997000
    // out = 1000 * 997000 / (1000 * 10000 + 997000) = 90
    assert_eq!(quote_constant_product(1000, 1000, 30, 100), Ok(90));
}

#[test]
fn constant_product_is_deterministic_across_runs() {
    let first = quote_constant_product(1000, 1000, 30, 100);
    for _ in 0..10 {
        assert_eq!(quote_constant_product(1000, 1000, 30, 100), first);
    }
}

#[test]
fn constant_product_empty_reserve_is_insufficient() {
    assert_eq!(
        quote_constant_product(0, 1000, 30, 100),
        Err(PricingError::InsufficientLiquidity)
    );
    assert_eq!(
        quote_constant_product(1000, 0, 30, 100),
        Err(PricingError::InsufficientLiquidity)
    );
}

#[test]
fn constant_product_never_drains_the_pool() {
    // With a huge input against a tiny pool the closed form tends to the
    // whole output reserve but stays strictly below it.
    assert_eq!(quote_constant_product(1, 10, 0, 1_000_000), Ok(9));
    assert_eq!(quote_constant_product(1, 10, 0, u64::MAX as u128), Ok(9));
}

#[test]
fn constant_product_overflow_is_reported() {
    assert_eq!(
        quote_constant_product(1000, 1000, 30, u128::MAX),
        Err(PricingError::Overflow)
    );
}

#[test]
fn concentrated_walk_consumes_bands_in_order() {
    // No fee.  Two bands: 100 in at price 2/1, then 100 in at price 1/1.
    // 150 in: 100 * 2 + 50 * 1 = 250 out.
    let bands = vec![
        TickBand { max_in: 100, price_num: 2, price_den: 1 },
        TickBand { max_in: 100, price_num: 1, price_den: 1 },
    ];
    assert_eq!(quote_concentrated(0, &bands, 150), Ok(250));
}

#[test]
fn concentrated_walk_applies_fee_up_front() {
    // 30 bp fee on 10000 leaves 9970 to walk; one wide band at price 1/1.
    let bands = vec![TickBand { max_in: 100_000, price_num: 1, price_den: 1 }];
    assert_eq!(quote_concentrated(30, &bands, 10_000), Ok(9970));
}

#[test]
fn concentrated_walk_rounds_down_per_band() {
    // 7 in at price 1/2 gives 3.
    let bands = vec![TickBand { max_in: 100, price_num: 1, price_den: 2 }];
    assert_eq!(quote_concentrated(0, &bands, 7), Ok(3));
}

#[test]
fn concentrated_walk_exhausted_schedule_is_insufficient() {
    let bands = vec![TickBand { max_in: 100, price_num: 1, price_den: 1 }];
    assert_eq!(
        quote_concentrated(0, &bands, 101),
        Err(PricingError::InsufficientLiquidity)
    );
}

#[test]
fn concentrated_walk_empty_schedule_with_input_is_insufficient() {
    let bands: Vec<TickBand> = vec![];
    assert_eq!(
        quote_concentrated(0, &bands, 1),
        Err(PricingError::InsufficientLiquidity)
    );
}

#[test]
fn concentrated_walk_zero_effective_input_is_ok() {
    let bands: Vec<TickBand> = vec![];
    assert_eq!(quote_concentrated(0, &bands, 0), Ok(0));
}

#[test]
fn quote_dispatches_on_direction() {
    let v = PoolVariant::ConstantProduct { reserve0: 1000, reserve1: 1000, fee_bp: 30 };
    assert_eq!(quote(&v, true, 100), Ok(90));
    assert_eq!(quote(&v, false, 100), Ok(90));
    let skew = PoolVariant::ConstantProduct { reserve0: 1000, reserve1: 4000, fee_bp: 0 };
    // token0 in: 4000 * 100 / (1000 * 1 + 100) ... with fee 0:
    // a = 100 * 10000; out = 4000*1000000/(10000000+1000000) = 363
    assert_eq!(quote(&skew, true, 100), Ok(363));
    // token1 in: 1000 * 1000000 / (40000000 + 1000000) = 24
    assert_eq!(quote(&skew, false, 100), Ok(24));
}
