use amm_engine::addr::Addr;
use amm_engine::pathfinder::find_arb_paths;
use amm_engine::types::{Pool, PoolVariant, Token};

fn addr(lo: u128) -> Addr {
    Addr { hi: 0, lo }
}

fn pool(pool_lo: u128, t0: u128, t1: u128) -> Pool {
    Pool {
        address: addr(pool_lo),
        token0: Token { address: addr(t0), decimals: 18 },
        token1: Token { address: addr(t1), decimals: 18 },
        variant: PoolVariant::ConstantProduct {
            reserve0: 1_000_000,
            reserve1: 1_000_000,
            fee_bp: 30,
        },
        factory: addr(900),
        creation_block: 0,
    }
}

#[test]
fn no_cycle_through_base_yields_empty_result() {
    // A chain 1-2-3: no way back to the base token 1 without reusing a pool.
    let pools = vec![pool(100, 1, 2), pool(101, 2, 3)];
    let paths = find_arb_paths(&pools, addr(1), 4);
    assert!(paths.is_empty());
}

#[test]
fn paths_respect_the_hop_bound() {
    // Base 1; a triangle 1-2, 2-3, 1-3 plus a parallel pool on 1-2.
    let pools = vec![
        pool(100, 1, 2),
        pool(101, 2, 3),
        pool(102, 1, 3),
        pool(103, 1, 2),
    ];
    for max_hops in 2..=4 {
        let paths = find_arb_paths(&pools, addr(1), max_hops);
        for p in &paths {
            assert!(p.edges.len() >= 2);
            assert!(p.edges.len() <= max_hops);
        }
    }
}

#[test]
fn paths_never_reuse_a_pool() {
    let pools = vec![
        pool(100, 1, 2),
        pool(101, 2, 3),
        pool(102, 1, 3),
        pool(103, 1, 2),
    ];
    let paths = find_arb_paths(&pools, addr(1), 4);
    assert!(!paths.is_empty());
    for p in &paths {
        for i in 0..p.edges.len() {
            for j in (i + 1)..p.edges.len() {
                assert_ne!(p.edges[i].pool_index, p.edges[j].pool_index);
            }
        }
    }
}

#[test]
fn two_hop_cycle_over_parallel_pools_is_found() {
    // Two distinct pools on the same pair form a 2-hop cycle.
    let pools = vec![pool(100, 1, 2), pool(103, 1, 2)];
    let paths = find_arb_paths(&pools, addr(1), 2);
    assert_eq!(paths.len(), 2);
    for p in &paths {
        assert_eq!(p.edges.len(), 2);
        assert_ne!(p.edges[0].pool_index, p.edges[1].pool_index);
    }
}

#[test]
fn hop_bound_below_two_yields_nothing() {
    let pools = vec![pool(100, 1, 2), pool(103, 1, 2)];
    assert!(find_arb_paths(&pools, addr(1), 1).is_empty());
    assert!(find_arb_paths(&pools, addr(1), 0).is_empty());
}

#[test]
fn result_order_is_deterministic() {
    let pools = vec![
        pool(100, 1, 2),
        pool(101, 2, 3),
        pool(102, 1, 3),
        pool(103, 1, 2),
    ];
    let a = find_arb_paths(&pools, addr(1), 3);
    let b = find_arb_paths(&pools, addr(1), 3);
    assert_eq!(a.len(), b.len());
    for (x, y) in a.iter().zip(b.iter()) {
        assert_eq!(x.edges.len(), y.edges.len());
        for (ex, ey) in x.edges.iter().zip(y.edges.iter()) {
            assert_eq!(ex.pool_index, ey.pool_index);
            assert_eq!(ex.zero_for_one, ey.zero_for_one);
        }
    }
}
