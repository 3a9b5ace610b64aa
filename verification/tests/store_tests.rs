use amm_engine::addr::Addr;
use amm_engine::store::{PoolUpdate, StateDelta, StateStore};
use amm_engine::types::{Pool, PoolVariant, Token};

fn addr(lo: u128) -> Addr {
    Addr { hi: 0, lo }
}

fn cp_pool(pool_lo: u128, t0: u128, t1: u128, reserve0: u128, reserve1: u128) -> Pool {
    Pool {
        address: addr(pool_lo),
        token0: Token { address: addr(t0), decimals: 18 },
        token1: Token { address: addr(t1), decimals: 18 },
        variant: PoolVariant::ConstantProduct { reserve0, reserve1, fee_bp: 30 },
        factory: addr(900),
        creation_block: 1,
    }
}

fn reserves_of(p: &Pool) -> (u128, u128) {
    match p.variant {
        PoolVariant::ConstantProduct { reserve0, reserve1, .. } => (reserve0, reserve1),
        _ => panic!("expected a constant-product pool"),
    }
}

#[test]
fn apply_updates_sets_absolute_state() {
    let mut store = StateStore::new(10);
    store.seed(vec![cp_pool(100, 1, 2, 5, 5)]);
    let u = PoolUpdate {
        address: addr(100),
        block: 11,
        log_index: 0,
        delta: StateDelta::Reserves { reserve0: 1000, reserve1: 2000 },
    };
    let touched = store.apply_updates(&vec![u]);
    assert_eq!(touched, vec![addr(100)]);
    let snap = store.get_snapshot();
    assert_eq!(reserves_of(&snap[0]), (1000, 2000));
    assert_eq!(store.latest_block(), 11);
}

#[test]
fn apply_updates_is_idempotent_per_log() {
    let mut store = StateStore::new(10);
    store.seed(vec![cp_pool(100, 1, 2, 5, 5)]);
    let u = PoolUpdate {
        address: addr(100),
        block: 11,
        log_index: 0,
        delta: StateDelta::Reserves { reserve0: 1000, reserve1: 2000 },
    };
    store.apply_updates(&vec![u]);
    let first = reserves_of(&store.get_snapshot()[0]);
    store.apply_updates(&vec![u]);
    let second = reserves_of(&store.get_snapshot()[0]);
    assert_eq!(first, second);
    assert_eq!(second, (1000, 2000));
    assert_eq!(store.latest_block(), 11);
}

#[test]
fn apply_updates_ignores_unknown_pool_and_wrong_kind() {
    let mut store = StateStore::new(0);
    store.seed(vec![cp_pool(100, 1, 2, 7, 8)]);
    let unknown = PoolUpdate {
        address: addr(999),
        block: 5,
        log_index: 0,
        delta: StateDelta::Reserves { reserve0: 1, reserve1: 1 },
    };
    let wrong_kind = PoolUpdate {
        address: addr(100),
        block: 6,
        log_index: 1,
        delta: StateDelta::PointState { liquidity: 1, sqrt_price: 1, tick: 0 },
    };
    let touched = store.apply_updates(&vec![unknown, wrong_kind]);
    // The unknown pool is not touched; the mismatched delta still names a
    // tracked pool (and leaves its state alone).
    assert_eq!(touched, vec![addr(100)]);
    assert_eq!(reserves_of(&store.get_snapshot()[0]), (7, 8));
    // The latest processed block still advances over the whole batch.
    assert_eq!(store.latest_block(), 6);
}

#[test]
fn latest_block_never_decreases() {
    let mut store = StateStore::new(50);
    store.seed(vec![cp_pool(100, 1, 2, 5, 5)]);
    let stale = PoolUpdate {
        address: addr(100),
        block: 20,
        log_index: 0,
        delta: StateDelta::Reserves { reserve0: 9, reserve1: 9 },
    };
    store.apply_updates(&vec![stale]);
    assert_eq!(store.latest_block(), 50);
}

#[test]
fn within_one_pool_last_delta_wins() {
    let mut store = StateStore::new(0);
    store.seed(vec![cp_pool(100, 1, 2, 5, 5)]);
    let first = PoolUpdate {
        address: addr(100),
        block: 7,
        log_index: 0,
        delta: StateDelta::Reserves { reserve0: 11, reserve1: 12 },
    };
    let second = PoolUpdate {
        address: addr(100),
        block: 7,
        log_index: 1,
        delta: StateDelta::Reserves { reserve0: 21, reserve1: 22 },
    };
    let touched = store.apply_updates(&vec![first, second]);
    assert_eq!(touched, vec![addr(100)]);
    assert_eq!(reserves_of(&store.get_snapshot()[0]), (21, 22));
}

#[test]
fn get_finds_tracked_pools_by_address() {
    let mut store = StateStore::new(0);
    store.seed(vec![cp_pool(100, 1, 2, 5, 6), cp_pool(101, 1, 3, 7, 8)]);
    let p = store.get(addr(101)).unwrap();
    assert_eq!(p.address, addr(101));
    assert_eq!(reserves_of(p), (7, 8));
    assert!(store.get(addr(102)).is_none());
}

#[test]
fn snapshot_is_unaffected_by_later_writes() {
    let mut store = StateStore::new(0);
    store.seed(vec![cp_pool(100, 1, 2, 5, 6)]);
    let snap = store.get_snapshot();
    let u = PoolUpdate {
        address: addr(100),
        block: 1,
        log_index: 0,
        delta: StateDelta::Reserves { reserve0: 1000, reserve1: 2000 },
    };
    store.apply_updates(&vec![u]);
    assert_eq!(reserves_of(&snap[0]), (5, 6));
    assert_eq!(reserves_of(&store.get_snapshot()[0]), (1000, 2000));
}
