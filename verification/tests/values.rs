use nvme_disc::ipv4::parse_ipv4;
use nvme_disc::text::parse_u32;
use nvme_disc::{AddressFamily, DiscoveryRecord, Ipv4Address, TransportType};

#[test]
fn default_record_holds_the_documented_defaults() {
    let rec = DiscoveryRecord::default();
    assert_eq!(rec.nqn, "nqn.2014-08.org.nvmexpress.discovery");
    assert_eq!(rec.trtype, TransportType::Tcp);
    assert_eq!(rec.adrfam, AddressFamily::Ipv4);
    assert_eq!(rec.traddr, Ipv4Address { a: 127, b: 0, c: 0, d: 1 });
    assert_eq!(rec.trsvcid, 8009);
}

#[test]
fn transport_texts_map_to_their_variants() {
    assert_eq!(TransportType::from_text("RDMA"), Some(TransportType::Rdma));
    assert_eq!(TransportType::from_text("FC"), Some(TransportType::Fc));
    assert_eq!(TransportType::from_text("TCP"), Some(TransportType::Tcp));
    assert_eq!(TransportType::from_text("Loop"), Some(TransportType::Loop));
}

#[test]
fn transport_match_is_exact_and_case_sensitive() {
    assert_eq!(TransportType::from_text("tcp"), None);
    assert_eq!(TransportType::from_text("LOOP"), None);
    assert_eq!(TransportType::from_text("TCP "), None);
    assert_eq!(TransportType::from_text(""), None);
}

#[test]
fn transport_wire_tags() {
    assert_eq!(TransportType::Rdma.wire_tag(), 1);
    assert_eq!(TransportType::Fc.wire_tag(), 2);
    assert_eq!(TransportType::Tcp.wire_tag(), 3);
    assert_eq!(TransportType::Loop.wire_tag(), 254);
}

#[test]
fn address_family_texts_map_to_their_variants() {
    assert_eq!(AddressFamily::from_text("IPv4"), Some(AddressFamily::Ipv4));
    assert_eq!(AddressFamily::from_text("IPv6"), Some(AddressFamily::Ipv6));
    assert_eq!(AddressFamily::from_text("IB"), Some(AddressFamily::InfiniBand));
    assert_eq!(AddressFamily::from_text("FC"), Some(AddressFamily::Fc));
    assert_eq!(AddressFamily::from_text("Loop"), Some(AddressFamily::Loop));
}

#[test]
fn address_family_match_is_exact_and_case_sensitive() {
    assert_eq!(AddressFamily::from_text("ipv4"), None);
    assert_eq!(AddressFamily::from_text("IPV6"), None);
    assert_eq!(AddressFamily::from_text("Infiniband"), None);
}

#[test]
fn address_family_wire_tags() {
    assert_eq!(AddressFamily::Ipv4.wire_tag(), 1);
    assert_eq!(AddressFamily::Ipv6.wire_tag(), 2);
    assert_eq!(AddressFamily::InfiniBand.wire_tag(), 3);
    assert_eq!(AddressFamily::Fc.wire_tag(), 4);
    assert_eq!(AddressFamily::Loop.wire_tag(), 254);
}

#[test]
fn parse_ipv4_accepts_plain_dotted_quads() {
    assert_eq!(parse_ipv4("127.0.0.1"), Some(Ipv4Address { a: 127, b: 0, c: 0, d: 1 }));
    assert_eq!(parse_ipv4("0.0.0.0"), Some(Ipv4Address { a: 0, b: 0, c: 0, d: 0 }));
    assert_eq!(parse_ipv4("9.10.200.255"), Some(Ipv4Address { a: 9, b: 10, c: 200, d: 255 }));
}

#[test]
fn parse_ipv4_rejects_leading_zeros() {
    assert_eq!(parse_ipv4("01.2.3.4"), None);
    assert_eq!(parse_ipv4("1.2.3.004"), None);
    assert_eq!(parse_ipv4("00.0.0.0"), None);
}

#[test]
fn parse_ipv4_rejects_wrong_shapes() {
    assert_eq!(parse_ipv4(""), None);
    assert_eq!(parse_ipv4("1.2.3"), None);
    assert_eq!(parse_ipv4("1.2.3.4.5"), None);
    assert_eq!(parse_ipv4("1..2.3"), None);
    assert_eq!(parse_ipv4(".1.2.3"), None);
    assert_eq!(parse_ipv4("1.2.3."), None);
    assert_eq!(parse_ipv4("256.0.0.1"), None);
    assert_eq!(parse_ipv4("1.2.3.1000"), None);
    assert_eq!(parse_ipv4("1.2.3.4x"), None);
    assert_eq!(parse_ipv4("+1.2.3.4"), None);
}

#[test]
fn parse_u32_accepts_plain_decimal() {
    assert_eq!(parse_u32("0"), Some(0));
    assert_eq!(parse_u32("8009"), Some(8009));
    assert_eq!(parse_u32("4294967295"), Some(u32::MAX));
}

#[test]
fn parse_u32_accepts_a_leading_plus_sign() {
    assert_eq!(parse_u32("+17"), Some(17));
    assert_eq!(parse_u32("+0"), Some(0));
}

#[test]
fn parse_u32_rejects_out_of_range_values() {
    assert_eq!(parse_u32("4294967296"), None);
    assert_eq!(parse_u32("99999999999999999999"), None);
}

#[test]
fn parse_u32_rejects_malformed_text() {
    assert_eq!(parse_u32(""), None);
    assert_eq!(parse_u32("+"), None);
    assert_eq!(parse_u32("-1"), None);
    assert_eq!(parse_u32("1.5"), None);
    assert_eq!(parse_u32("12 "), None);
}
