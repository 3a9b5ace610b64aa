use amm_engine::addr::Addr;
use amm_engine::config::EngineConfig;
use amm_engine::types::{ConfigError, Factory, VariantKind};

fn addr(lo: u128) -> Addr {
    Addr { hi: 0, lo }
}

fn factory(fee: u32) -> Factory {
    Factory {
        address: addr(900),
        kind: VariantKind::ConstantProduct,
        creation_block: 0,
        default_fee_bp: fee,
    }
}

#[test]
fn a_valid_configuration_is_accepted() {
    let c = EngineConfig::new(addr(1), 3, 1000, 10, vec![addr(1), addr(2)], vec![factory(30)]);
    let c = c.unwrap();
    assert_eq!(c.base_token, addr(1));
    assert_eq!(c.max_hops, 3);
    assert_eq!(c.probe_amount_in, 1000);
    assert_eq!(c.min_quote_value, 10);
    assert!(c.validate().is_ok());
}

#[test]
fn too_few_hops_is_fatal() {
    let r = EngineConfig::new(addr(1), 1, 1000, 10, vec![addr(1)], vec![factory(30)]);
    assert_eq!(r.unwrap_err(), ConfigError::MaxHopsTooSmall);
}

#[test]
fn zero_probe_amount_is_fatal() {
    let r = EngineConfig::new(addr(1), 3, 0, 10, vec![addr(1)], vec![factory(30)]);
    assert_eq!(r.unwrap_err(), ConfigError::ZeroProbeAmount);
}

#[test]
fn missing_factories_are_fatal() {
    let r = EngineConfig::new(addr(1), 3, 1000, 10, vec![addr(1)], vec![]);
    assert_eq!(r.unwrap_err(), ConfigError::NoFactories);
}

#[test]
fn a_bad_factory_fee_is_fatal() {
    let r = EngineConfig::new(
        addr(1),
        3,
        1000,
        10,
        vec![addr(1)],
        vec![factory(30), factory(10_001)],
    );
    assert_eq!(r.unwrap_err(), ConfigError::BadFactoryFee);
}
