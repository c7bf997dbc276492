use nvme_disc::{parse, AddressFamily, DiscoveryRecord, Ipv4Address, ParseError, TransportType};

fn toks(words: &[&str]) -> Vec<String> {
    words.iter().map(|w| w.to_string()).collect()
}

fn addr(a: u8, b: u8, c: u8, d: u8) -> Ipv4Address {
    Ipv4Address { a, b, c, d }
}

#[test]
fn empty_token_list_returns_initial_record() {
    let initial = DiscoveryRecord::default();
    let out = parse(initial.clone(), &toks(&[])).unwrap();
    assert_eq!(out, initial);
}

#[test]
fn program_name_alone_returns_initial_record() {
    let initial = DiscoveryRecord::default();
    let out = parse(initial.clone(), &toks(&["prog"])).unwrap();
    assert_eq!(out, initial);
}

#[test]
fn token_after_program_name_must_be_a_flag() {
    let err = parse(DiscoveryRecord::default(), &toks(&["prog", "x"])).unwrap_err();
    assert_eq!(err, ParseError::UnrecognizedFlag("x".to_string()));
}

#[test]
fn traddr_valid_literal_sets_address() {
    let out = parse(DiscoveryRecord::default(), &toks(&["prog", "--traddr", "10.0.0.5"])).unwrap();
    assert_eq!(out.traddr, addr(10, 0, 0, 5));
}

#[test]
fn traddr_extreme_octets() {
    let out = parse(
        DiscoveryRecord::default(),
        &toks(&["prog", "--traddr", "255.255.255.255"]),
    )
    .unwrap();
    assert_eq!(out.traddr, addr(255, 255, 255, 255));
    let out = parse(DiscoveryRecord::default(), &toks(&["prog", "--traddr", "0.0.0.0"])).unwrap();
    assert_eq!(out.traddr, addr(0, 0, 0, 0));
}

#[test]
fn traddr_octet_over_255_is_invalid() {
    let err =
        parse(DiscoveryRecord::default(), &toks(&["prog", "--traddr", "256.1.1.1"])).unwrap_err();
    assert_eq!(err, ParseError::InvalidAddress("256.1.1.1".to_string()));
}

#[test]
fn traddr_malformed_literals_are_invalid() {
    for bad in [
        "", "1", "1.2", "1.2.3", "1.2.3.4.5", "01.2.3.4", "1.2.3.04", "a.b.c.d", "1..2.3",
        ".1.2.3", "1.2.3.", "1.2.3.4 ", "1234.1.1.1",
    ] {
        let err =
            parse(DiscoveryRecord::default(), &toks(&["prog", "--traddr", bad])).unwrap_err();
        assert_eq!(err, ParseError::InvalidAddress(bad.to_string()), "input {:?}", bad);
    }
}

#[test]
fn trsvcid_valid_integer_sets_service_id() {
    let out = parse(DiscoveryRecord::default(), &toks(&["prog", "--trsvcid", "4420"])).unwrap();
    assert_eq!(out.trsvcid, 4420);
}

#[test]
fn trsvcid_accepts_the_32_bit_maximum() {
    let out =
        parse(DiscoveryRecord::default(), &toks(&["prog", "--trsvcid", "4294967295"])).unwrap();
    assert_eq!(out.trsvcid, u32::MAX);
}

#[test]
fn trsvcid_out_of_range_is_invalid() {
    let err = parse(DiscoveryRecord::default(), &toks(&["prog", "--trsvcid", "4294967296"]))
        .unwrap_err();
    assert_eq!(err, ParseError::InvalidInteger("4294967296".to_string()));
}

#[test]
fn trsvcid_negative_or_malformed_is_invalid() {
    for bad in ["-1", "", "+", "12x", " 1", "0x10", "1 "] {
        let err =
            parse(DiscoveryRecord::default(), &toks(&["prog", "--trsvcid", bad])).unwrap_err();
        assert_eq!(err, ParseError::InvalidInteger(bad.to_string()), "input {:?}", bad);
    }
}

#[test]
fn repeated_trtype_flag_last_write_wins() {
    let out = parse(
        DiscoveryRecord::default(),
        &toks(&["prog", "--trtype", "TCP", "--trtype", "RDMA"]),
    )
    .unwrap();
    assert_eq!(out.trtype, TransportType::Rdma);
}

#[test]
fn trtype_unknown_text_is_rejected_by_name() {
    let err =
        parse(DiscoveryRecord::default(), &toks(&["prog", "--trtype", "Foo"])).unwrap_err();
    assert_eq!(err, ParseError::UnrecognizedEnumValue("Foo".to_string()));
}

#[test]
fn adrfam_unknown_text_is_rejected_by_name() {
    let err =
        parse(DiscoveryRecord::default(), &toks(&["prog", "--adrfam", "Bar"])).unwrap_err();
    assert_eq!(err, ParseError::UnrecognizedEnumValue("Bar".to_string()));
}

#[test]
fn adrfam_valid_text_sets_family() {
    let out = parse(DiscoveryRecord::default(), &toks(&["prog", "--adrfam", "IB"])).unwrap();
    assert_eq!(out.adrfam, AddressFamily::InfiniBand);
}

#[test]
fn trailing_flag_without_value_is_missing_value() {
    let err = parse(DiscoveryRecord::default(), &toks(&["prog", "--nqn"])).unwrap_err();
    assert_eq!(err, ParseError::MissingValue("--nqn".to_string()));
}

#[test]
fn every_flag_reports_missing_value_when_last() {
    for flag in ["--nqn", "--traddr", "--trsvcid", "--trtype", "--adrfam"] {
        let err = parse(DiscoveryRecord::default(), &toks(&["prog", flag])).unwrap_err();
        assert_eq!(err, ParseError::MissingValue(flag.to_string()), "flag {:?}", flag);
    }
}

#[test]
fn end_to_end_overrides_and_defaults() {
    let out = parse(
        DiscoveryRecord::default(),
        &toks(&["prog", "--traddr", "10.0.0.5", "--trsvcid", "4420", "--nqn", "nqn.test"]),
    )
    .unwrap();
    assert_eq!(out.nqn, "nqn.test");
    assert_eq!(out.traddr, addr(10, 0, 0, 5));
    assert_eq!(out.trsvcid, 4420);
    assert_eq!(out.trtype, TransportType::Tcp);
    assert_eq!(out.adrfam, AddressFamily::Ipv4);
}

#[test]
fn end_to_end_unrecognized_flag() {
    let err = parse(DiscoveryRecord::default(), &toks(&["prog", "--bogus", "x"])).unwrap_err();
    assert_eq!(err, ParseError::UnrecognizedFlag("--bogus".to_string()));
}

#[test]
fn first_error_left_to_right_wins() {
    let err = parse(
        DiscoveryRecord::default(),
        &toks(&["prog", "--trtype", "Foo", "--traddr", "999.0.0.1"]),
    )
    .unwrap_err();
    assert_eq!(err, ParseError::UnrecognizedEnumValue("Foo".to_string()));
}

#[test]
fn nqn_value_is_taken_verbatim() {
    let out = parse(
        DiscoveryRecord::default(),
        &toks(&["prog", "--nqn", "not an nqn at all -- but accepted"]),
    )
    .unwrap();
    assert_eq!(out.nqn, "not an nqn at all -- but accepted");
}

#[test]
fn flag_order_does_not_matter_for_distinct_flags() {
    let a = parse(
        DiscoveryRecord::default(),
        &toks(&["prog", "--trtype", "FC", "--adrfam", "FC"]),
    )
    .unwrap();
    let b = parse(
        DiscoveryRecord::default(),
        &toks(&["prog", "--adrfam", "FC", "--trtype", "FC"]),
    )
    .unwrap();
    assert_eq!(a, b);
    assert_eq!(a.trtype, TransportType::Fc);
    assert_eq!(a.adrfam, AddressFamily::Fc);
}
