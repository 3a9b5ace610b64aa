use amm_engine::addr::Addr;
use amm_engine::snapshot::{deserialize, from_record, serialize, to_record};
use amm_engine::store::StateStore;
use amm_engine::types::{DecodeError, Pool, PoolVariant, TickBand, Token};

fn addr(lo: u128) -> Addr {
    Addr { hi: 0, lo }
}

fn cp_pool(pool_lo: u128, reserve0: u128, reserve1: u128) -> Pool {
    Pool {
        address: addr(pool_lo),
        token0: Token { address: addr(1), decimals: 18 },
        token1: Token { address: addr(2), decimals: 6 },
        variant: PoolVariant::ConstantProduct { reserve0, reserve1, fee_bp: 30 },
        factory: addr(900),
        creation_block: 4,
    }
}

fn cl_pool(pool_lo: u128) -> Pool {
    Pool {
        address: addr(pool_lo),
        token0: Token { address: addr(1), decimals: 18 },
        token1: Token { address: addr(3), decimals: 18 },
        variant: PoolVariant::ConcentratedLiquidity {
            liquidity: 500,
            sqrt_price: 79228,
            tick: -12,
            fee_bp: 500,
            bands: vec![
                TickBand { max_in: 100, price_num: 2, price_den: 1 },
                TickBand { max_in: 300, price_num: 1, price_den: 2 },
            ],
        },
        factory: addr(901),
        creation_block: 9,
    }
}

fn same_pool(a: &Pool, b: &Pool) -> bool {
    if a.address != b.address || a.token0 != b.token0 || a.token1 != b.token1
        || a.factory != b.factory || a.creation_block != b.creation_block
    {
        return false;
    }
    match (&a.variant, &b.variant) {
        (
            PoolVariant::ConstantProduct { reserve0: r0, reserve1: r1, fee_bp: f },
            PoolVariant::ConstantProduct { reserve0: s0, reserve1: s1, fee_bp: g },
        ) => r0 == s0 && r1 == s1 && f == g,
        (
            PoolVariant::ConcentratedLiquidity {
                liquidity: l1,
                sqrt_price: p1,
                tick: t1,
                fee_bp: f1,
                bands: b1,
            },
            PoolVariant::ConcentratedLiquidity {
                liquidity: l2,
                sqrt_price: p2,
                tick: t2,
                fee_bp: f2,
                bands: b2,
            },
        ) => l1 == l2 && p1 == p2 && t1 == t2 && f1 == f2 && b1 == b2,
        _ => false,
    }
}

#[test]
fn a_pool_survives_the_record_round_trip() {
    for p in [cp_pool(100, 11, 22), cl_pool(101)] {
        let rec = to_record(&p);
        let back = from_record(&rec).unwrap();
        assert!(same_pool(&p, &back));
    }
}

#[test]
fn a_store_survives_the_snapshot_round_trip() {
    let mut store = StateStore::new(42);
    store.seed(vec![cp_pool(100, 11, 22), cl_pool(101)]);
    let (records, latest) = serialize(&store);
    assert_eq!(latest, 42);
    assert_eq!(records.len(), 2);
    let rebuilt = deserialize(&records, latest);
    assert_eq!(rebuilt.latest_block(), 42);
    let before = store.get_snapshot();
    let after = rebuilt.get_snapshot();
    assert_eq!(before.len(), after.len());
    for (a, b) in before.iter().zip(after.iter()) {
        assert!(same_pool(a, b));
    }
}

#[test]
fn malformed_records_are_skipped_on_load() {
    let good = to_record(&cp_pool(100, 11, 22));
    let mut unordered = to_record(&cp_pool(101, 1, 1));
    unordered.token1.address = addr(0);
    let mut bad_fee = to_record(&cp_pool(102, 1, 1));
    bad_fee.fee_bp = 10_001;
    let mut bad_band = to_record(&cl_pool(103));
    bad_band.bands[0].price_den = 0;
    let duplicate = to_record(&cp_pool(100, 99, 99));

    assert_eq!(from_record(&unordered).unwrap_err(), DecodeError::UnorderedTokens);
    assert_eq!(from_record(&bad_fee).unwrap_err(), DecodeError::BadField);
    assert_eq!(from_record(&bad_band).unwrap_err(), DecodeError::BadField);

    let rebuilt = deserialize(&vec![good, unordered, bad_fee, bad_band, duplicate], 7);
    let pools = rebuilt.get_snapshot();
    assert_eq!(pools.len(), 1);
    assert_eq!(pools[0].address, addr(100));
    // The first record for an address wins; the duplicate is ignored.
    assert!(same_pool(&pools[0], &cp_pool(100, 11, 22)));
}
