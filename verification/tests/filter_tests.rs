use amm_engine::addr::Addr;
use amm_engine::filter::{FilterPipeline, PoolPredicate};
use amm_engine::types::{Pool, PoolVariant, Token};

fn addr(lo: u128) -> Addr {
    Addr { hi: 0, lo }
}

fn pool(pool_lo: u128, t0: u128, t1: u128) -> Pool {
    Pool {
        address: addr(pool_lo),
        token0: Token { address: addr(t0), decimals: 18 },
        token1: Token { address: addr(t1), decimals: 6 },
        variant: PoolVariant::ConstantProduct { reserve0: 1, reserve1: 1, fee_bp: 30 },
        factory: addr(900),
        creation_block: 0,
    }
}

#[test]
fn whitelist_requires_both_tokens() {
    let pipeline = FilterPipeline::new(vec![PoolPredicate::TokenWhitelist(vec![
        addr(1),
        addr(2),
    ])]);
    assert!(pipeline.admits(&pool(100, 1, 2), 0));
    assert!(!pipeline.admits(&pool(101, 1, 3), 0));
    assert!(!pipeline.admits(&pool(102, 3, 4), 0));
}

#[test]
fn value_filter_compares_fetched_value() {
    let pipeline = FilterPipeline::new(vec![PoolPredicate::MinQuoteValue(1000)]);
    assert!(pipeline.admits(&pool(100, 1, 2), 1000));
    assert!(pipeline.admits(&pool(100, 1, 2), 5000));
    assert!(!pipeline.admits(&pool(100, 1, 2), 999));
}

#[test]
fn composition_is_a_strict_and() {
    let both = FilterPipeline::new(vec![
        PoolPredicate::TokenWhitelist(vec![addr(1), addr(2)]),
        PoolPredicate::MinQuoteValue(1000),
    ]);
    // Passing both predicates admits.
    assert!(both.admits(&pool(100, 1, 2), 2000));
    // Failing any single predicate rejects.
    assert!(!both.admits(&pool(100, 1, 3), 2000));
    assert!(!both.admits(&pool(100, 1, 2), 500));
    assert!(!both.admits(&pool(100, 3, 4), 0));
}

#[test]
fn predicate_order_does_not_change_the_admitted_set() {
    let forward = FilterPipeline::new(vec![
        PoolPredicate::TokenWhitelist(vec![addr(1), addr(2), addr(3)]),
        PoolPredicate::MinQuoteValue(1000),
    ]);
    let backward = FilterPipeline::new(vec![
        PoolPredicate::MinQuoteValue(1000),
        PoolPredicate::TokenWhitelist(vec![addr(1), addr(2), addr(3)]),
    ]);
    let pools = vec![
        pool(100, 1, 2),
        pool(101, 1, 3),
        pool(102, 1, 4),
        pool(103, 2, 3),
    ];
    let values = vec![2000, 500, 2000, 1000];
    let a = forward.admit_all(&pools, &values);
    let b = backward.admit_all(&pools, &values);
    let a_addrs: Vec<u128> = a.iter().map(|p| p.address.lo).collect();
    let b_addrs: Vec<u128> = b.iter().map(|p| p.address.lo).collect();
    assert_eq!(a_addrs, b_addrs);
    // 100 passes both; 101 fails the value; 102 fails the whitelist;
    // 103 passes both.
    assert_eq!(a_addrs, vec![100, 103]);
}

#[test]
fn empty_pipeline_admits_everything() {
    let pipeline = FilterPipeline::new(vec![]);
    assert!(pipeline.admits(&pool(100, 7, 8), 0));
}
