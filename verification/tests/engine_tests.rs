//! End-to-end: seed a store with a three-pool cycle through the base
//! token, enumerate, simulate and score it.

use amm_engine::addr::Addr;
use amm_engine::math::percentage_change_bp;
use amm_engine::pathfinder::find_arb_paths;
use amm_engine::simulate::{run_search, simulate};
use amm_engine::store::StateStore;
use amm_engine::types::{Pool, PoolVariant, TickBand, Token};

fn addr(lo: u128) -> Addr {
    Addr { hi: 0, lo }
}

fn cp_pool(pool_lo: u128, t0: u128, t1: u128, reserve0: u128, reserve1: u128) -> Pool {
    Pool {
        address: addr(pool_lo),
        token0: Token { address: addr(t0), decimals: 18 },
        token1: Token { address: addr(t1), decimals: 18 },
        variant: PoolVariant::ConstantProduct { reserve0, reserve1, fee_bp: 30 },
        factory: addr(900),
        creation_block: 0,
    }
}

// Base token 1; tokens 1 < 2 < 3.  The cycle 1 -> 2 -> 3 -> 1 multiplies
// the probe by roughly 2 * 1 * 0.6 = 1.2 before fees.
fn seeded_store() -> StateStore {
    let mut store = StateStore::new(0);
    store.seed(vec![
        cp_pool(100, 1, 2, 100_000, 200_000),
        cp_pool(101, 2, 3, 100_000, 100_000),
        cp_pool(102, 1, 3, 60_000, 100_000),
    ]);
    store
}

#[test]
fn three_hop_cycle_is_found_exactly() {
    let snapshot = seeded_store().get_snapshot();
    let paths = find_arb_paths(&snapshot, addr(1), 3);
    // One cycle through the base token, traversed in its two orientations.
    assert_eq!(paths.len(), 2);
    for p in &paths {
        assert_eq!(p.edges.len(), 3);
        let mut used: Vec<usize> = p.edges.iter().map(|e| e.pool_index).collect();
        used.sort();
        assert_eq!(used, vec![0, 1, 2]);
    }
    // The forward orientation: pool 0 token0->token1, pool 1 token0->token1,
    // pool 2 token1->token0.
    assert_eq!(paths[0].edges[0].pool_index, 0);
    assert!(paths[0].edges[0].zero_for_one);
    assert_eq!(paths[0].edges[1].pool_index, 1);
    assert!(paths[0].edges[1].zero_for_one);
    assert_eq!(paths[0].edges[2].pool_index, 2);
    assert!(!paths[0].edges[2].zero_for_one);
}

#[test]
fn simulation_reports_the_expected_gain() {
    let snapshot = seeded_store().get_snapshot();
    let paths = find_arb_paths(&snapshot, addr(1), 3);
    let forward = &paths[0];
    let out = simulate(&snapshot, forward, 1000).unwrap();
    // 1000 -> 1974 -> 1930 -> 1132 under the closed-form formula.
    assert_eq!(out, 1132);
    assert_eq!(percentage_change_bp(1000, out), Some(1320));
}

#[test]
fn run_search_scores_both_orientations() {
    let snapshot = seeded_store().get_snapshot();
    let results = run_search(&snapshot, addr(1), 3, 1000);
    assert_eq!(results.len(), 2);
    assert_eq!(results[0].amount_in, 1000);
    assert_eq!(results[0].amount_out, 1132);
    assert_eq!(results[0].gain_bp, Some(1320));
    // The reverse orientation loses money but still executes.
    assert_eq!(results[1].amount_out, 792);
    assert_eq!(results[1].gain_bp, Some(-2080));
}

#[test]
fn mixed_variant_cycle_is_simulated_per_variant() {
    // A 2-hop cycle over the same pair: out by a constant-product pool,
    // back by a concentrated-liquidity pool priced 11/10 with no fee.
    let mut store = StateStore::new(0);
    store.seed(vec![
        cp_pool(100, 1, 2, 100_000, 100_000),
        Pool {
            address: addr(101),
            token0: Token { address: addr(1), decimals: 18 },
            token1: Token { address: addr(2), decimals: 18 },
            variant: PoolVariant::ConcentratedLiquidity {
                liquidity: 1_000_000,
                sqrt_price: 0,
                tick: 0,
                fee_bp: 0,
                bands: vec![TickBand { max_in: 1_000_000, price_num: 11, price_den: 10 }],
            },
            factory: addr(901),
            creation_block: 0,
        },
    ]);
    let snapshot = store.get_snapshot();
    let results = run_search(&snapshot, addr(1), 2, 1000);
    assert_eq!(results.len(), 2);
    // Constant product first: 1000 -> 987, then the band walk: 987 * 11/10.
    assert_eq!(results[0].amount_out, 1085);
    assert_eq!(results[0].gain_bp, Some(850));
    // Band walk first: 1000 -> 1100, then constant product: 1084.
    assert_eq!(results[1].amount_out, 1084);
    assert_eq!(results[1].gain_bp, Some(840));
}

#[test]
fn run_search_drops_paths_that_cannot_execute() {
    // The 1-3 pool has an empty reserve: every cycle through it fails with
    // insufficient liquidity and is dropped, not fatal to the search.
    let mut store = StateStore::new(0);
    store.seed(vec![
        cp_pool(100, 1, 2, 100_000, 200_000),
        cp_pool(101, 2, 3, 100_000, 100_000),
        cp_pool(102, 1, 3, 0, 100_000),
    ]);
    let snapshot = store.get_snapshot();
    assert_eq!(find_arb_paths(&snapshot, addr(1), 3).len(), 2);
    let results = run_search(&snapshot, addr(1), 3, 1000);
    assert!(results.is_empty());
}
