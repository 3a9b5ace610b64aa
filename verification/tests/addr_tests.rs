use amm_engine::addr::{parse_hex_addr, Addr};

#[test]
fn parses_a_mainnet_address() {
    let a = parse_hex_addr("0x5C69bEe701ef814a2B6a3EDD4B1652CB9cc5aA6f").unwrap();
    assert_eq!(a.hi, 1_550_434_023); // 0x5C69bEe7
    assert_eq!(a.lo, 2_572_809_252_133_935_225_228_236_692_925_033_071);
}

#[test]
fn parses_mixed_case_and_edges() {
    let a = parse_hex_addr("0x0000000A000000000000000000000000000000ff").unwrap();
    assert_eq!(a, Addr { hi: 10, lo: 255 });
    let zero = parse_hex_addr("0x0000000000000000000000000000000000000000").unwrap();
    assert_eq!(zero, Addr { hi: 0, lo: 0 });
    let all = parse_hex_addr("0xffffffffffffffffffffffffffffffffffffffff").unwrap();
    assert_eq!(all, Addr { hi: u32::MAX, lo: u128::MAX });
}

#[test]
fn rejects_malformed_strings() {
    // Wrong length.
    assert!(parse_hex_addr("0x5C69bEe7").is_none());
    assert!(parse_hex_addr("").is_none());
    // Missing prefix.
    assert!(parse_hex_addr("5C69bEe701ef814a2B6a3EDD4B1652CB9cc5aA6f00").is_none());
    // A non-hex digit.
    assert!(parse_hex_addr("0x5C69bEe701ef814a2B6a3EDD4B1652CB9cc5aAg6").is_none());
    // A non-ASCII character of the right character count.
    assert!(parse_hex_addr("0x5C69bEe701ef814a2B6a3EDD4B1652CB9cc5aAé6").is_none());
}
