use amm_engine::addr::Addr;
use amm_engine::events::{
    decode_pool_created, decode_state_log, RawLog, TOPIC_POINT_SWAP, TOPIC_POOL_CREATED,
    TOPIC_RESERVES_SYNC,
};
use amm_engine::registry::discover;
use amm_engine::store::StateDelta;
use amm_engine::sync::process_block_logs;
use amm_engine::types::{DecodeError, Factory, Pool, PoolVariant, VariantKind};

fn addr(lo: u128) -> Addr {
    Addr { hi: 0, lo }
}

fn push_addr(data: &mut Vec<u8>, a: Addr) {
    data.extend_from_slice(&a.hi.to_be_bytes());
    data.extend_from_slice(&a.lo.to_be_bytes());
}

fn creation_data(t0: Addr, d0: u8, t1: Addr, d1: u8, pool: Addr, fee: u32) -> Vec<u8> {
    let mut data = Vec::new();
    push_addr(&mut data, t0);
    data.push(d0);
    push_addr(&mut data, t1);
    data.push(d1);
    push_addr(&mut data, pool);
    data.extend_from_slice(&fee.to_be_bytes());
    data
}

fn factory() -> Factory {
    Factory {
        address: addr(900),
        kind: VariantKind::ConstantProduct,
        creation_block: 0,
        default_fee_bp: 30,
    }
}

fn creation_log(t0: Addr, t1: Addr, pool: Addr, fee: u32, block: u64) -> RawLog {
    RawLog {
        address: addr(900),
        topic: TOPIC_POOL_CREATED,
        block_number: block,
        log_index: 0,
        data: creation_data(t0, 18, t1, 6, pool, fee),
    }
}

#[test]
fn creation_log_decodes_to_a_zeroed_pool() {
    let log = creation_log(addr(1), addr(2), addr(100), 30, 77);
    let p = decode_pool_created(&factory(), &log).unwrap();
    assert_eq!(p.address, addr(100));
    assert_eq!(p.token0.address, addr(1));
    assert_eq!(p.token0.decimals, 18);
    assert_eq!(p.token1.address, addr(2));
    assert_eq!(p.token1.decimals, 6);
    assert_eq!(p.factory, addr(900));
    assert_eq!(p.creation_block, 77);
    match p.variant {
        PoolVariant::ConstantProduct { reserve0, reserve1, fee_bp } => {
            assert_eq!((reserve0, reserve1, fee_bp), (0, 0, 30));
        }
        _ => panic!("expected the factory's variant kind"),
    }
}

#[test]
fn creation_log_errors_are_exact() {
    let mut wrong_topic = creation_log(addr(1), addr(2), addr(100), 30, 1);
    wrong_topic.topic = 99;
    assert_eq!(
        decode_pool_created(&factory(), &wrong_topic).unwrap_err(),
        DecodeError::UnknownTopic
    );

    let mut short = creation_log(addr(1), addr(2), addr(100), 30, 1);
    short.data.pop();
    assert_eq!(
        decode_pool_created(&factory(), &short).unwrap_err(),
        DecodeError::Truncated
    );

    let unordered = creation_log(addr(2), addr(1), addr(100), 30, 1);
    assert_eq!(
        decode_pool_created(&factory(), &unordered).unwrap_err(),
        DecodeError::UnorderedTokens
    );

    let bad_fee = creation_log(addr(1), addr(2), addr(100), 10_001, 1);
    assert_eq!(
        decode_pool_created(&factory(), &bad_fee).unwrap_err(),
        DecodeError::BadField
    );
}

#[test]
fn reserves_log_decodes_to_an_absolute_delta() {
    let mut data = Vec::new();
    data.extend_from_slice(&1234u128.to_be_bytes());
    data.extend_from_slice(&5678u128.to_be_bytes());
    let log = RawLog {
        address: addr(100),
        topic: TOPIC_RESERVES_SYNC,
        block_number: 9,
        log_index: 3,
        data,
    };
    let u = decode_state_log(&log).unwrap();
    assert_eq!(u.address, addr(100));
    assert_eq!(u.block, 9);
    assert_eq!(u.log_index, 3);
    assert_eq!(
        u.delta,
        StateDelta::Reserves { reserve0: 1234, reserve1: 5678 }
    );
}

#[test]
fn point_log_decodes_sign_and_magnitude() {
    let mut data = Vec::new();
    data.extend_from_slice(&7u128.to_be_bytes());
    data.extend_from_slice(&8u128.to_be_bytes());
    data.push(1); // negative tick
    data.extend_from_slice(&55u32.to_be_bytes());
    let log = RawLog {
        address: addr(100),
        topic: TOPIC_POINT_SWAP,
        block_number: 2,
        log_index: 0,
        data,
    };
    let u = decode_state_log(&log).unwrap();
    assert_eq!(
        u.delta,
        StateDelta::PointState { liquidity: 7, sqrt_price: 8, tick: -55 }
    );
}

#[test]
fn point_log_bad_sign_is_rejected() {
    let mut data = Vec::new();
    data.extend_from_slice(&7u128.to_be_bytes());
    data.extend_from_slice(&8u128.to_be_bytes());
    data.push(2);
    data.extend_from_slice(&55u32.to_be_bytes());
    let log = RawLog {
        address: addr(100),
        topic: TOPIC_POINT_SWAP,
        block_number: 2,
        log_index: 0,
        data,
    };
    assert_eq!(decode_state_log(&log).unwrap_err(), DecodeError::BadField);
}

#[test]
fn one_bad_log_never_aborts_the_block() {
    let mut good = Vec::new();
    good.extend_from_slice(&1u128.to_be_bytes());
    good.extend_from_slice(&2u128.to_be_bytes());
    let logs = vec![
        RawLog {
            address: addr(100),
            topic: TOPIC_RESERVES_SYNC,
            block_number: 4,
            log_index: 0,
            data: good.clone(),
        },
        RawLog {
            address: addr(101),
            topic: TOPIC_RESERVES_SYNC,
            block_number: 4,
            log_index: 1,
            data: vec![0; 3],
        },
        RawLog {
            address: addr(102),
            topic: TOPIC_RESERVES_SYNC,
            block_number: 4,
            log_index: 2,
            data: good,
        },
    ];
    let (updates, errors) = process_block_logs(&logs);
    assert_eq!(errors, 1);
    assert_eq!(updates.len(), 2);
    assert_eq!(updates[0].address, addr(100));
    assert_eq!(updates[1].address, addr(102));
}

#[test]
fn discovery_deduplicates_and_skips_malformed() {
    let logs = vec![
        creation_log(addr(1), addr(2), addr(100), 30, 5),
        RawLog {
            address: addr(900),
            topic: TOPIC_POOL_CREATED,
            block_number: 5,
            log_index: 1,
            data: vec![1, 2, 3],
        },
        creation_log(addr(1), addr(2), addr(100), 30, 5),
        creation_log(addr(1), addr(3), addr(101), 30, 6),
    ];
    let mut known: Vec<Pool> = Vec::new();
    let skipped = discover(&factory(), &logs, &mut known);
    assert_eq!(skipped, 1);
    assert_eq!(known.len(), 2);
    assert_eq!(known[0].address, addr(100));
    assert_eq!(known[1].address, addr(101));
}

#[test]
fn discovery_is_resumable() {
    let logs = vec![
        creation_log(addr(1), addr(2), addr(100), 30, 5),
        creation_log(addr(1), addr(3), addr(101), 30, 6),
    ];
    let mut known: Vec<Pool> = Vec::new();
    discover(&factory(), &logs, &mut known);
    assert_eq!(known.len(), 2);
    // Feeding the same block range again adds nothing.
    discover(&factory(), &logs, &mut known);
    assert_eq!(known.len(), 2);
    assert_eq!(known[0].address, addr(100));
    assert_eq!(known[1].address, addr(101));
}
