use peer_discovery::address::{parse_address, parse_octet, Address};
use peer_discovery::listing::{
    get_local_network, get_own_ip, resolve_own_network, ListingFormat, ResolutionError,
};

#[test]
fn parses_dotted_decimal() {
    assert_eq!(parse_address(b"192.168.1.20"), Some(Address::new(192, 168, 1, 20)));
    assert_eq!(parse_address(b"0.0.0.0"), Some(Address::new(0, 0, 0, 0)));
    assert_eq!(parse_address(b"255.255.255.255"), Some(Address::new(255, 255, 255, 255)));
}

#[test]
fn rejects_malformed_addresses() {
    assert_eq!(parse_address(b""), None);
    assert_eq!(parse_address(b"1.2.3"), None);
    assert_eq!(parse_address(b"1.2.3.4.5"), None);
    assert_eq!(parse_address(b"256.1.1.1"), None);
    assert_eq!(parse_address(b"01.2.3.4"), None);
    assert_eq!(parse_address(b"1..3.4"), None);
    assert_eq!(parse_address(b"1.2.3.4 "), None);
    assert_eq!(parse_address(b"1.2.3.a"), None);
    assert_eq!(parse_address(b"1000.2.3.4"), None);
}

#[test]
fn parses_single_octets() {
    assert_eq!(parse_octet(b"x255y", 1, 4), Some(255));
    assert_eq!(parse_octet(b"7", 0, 1), Some(7));
    assert_eq!(parse_octet(b"00", 0, 2), None);
    assert_eq!(parse_octet(b"260", 0, 3), None);
    assert_eq!(parse_octet(b"", 0, 0), None);
}

#[test]
fn text_round_trips() {
    let x = Address::new(10, 0, 7, 254);
    assert_eq!(x.to_text(), b"10.0.7.254".to_vec());
    assert_eq!(parse_address(&x.to_text()), Some(x));
    assert_eq!(Address::new(192, 168, 1, 20).to_text(), b"192.168.1.20".to_vec());
}

#[test]
fn private_ranges() {
    assert!(Address::new(192, 168, 0, 1).is_private());
    assert!(Address::new(10, 20, 30, 40).is_private());
    assert!(!Address::new(172, 16, 0, 1).is_private());
    assert!(!Address::new(127, 0, 0, 1).is_private());
    assert!(!Address::new(192, 169, 0, 1).is_private());
}

#[test]
fn address_list_gives_first_private_address() {
    let listing = b"172.17.0.1 192.168.1.10 10.0.0.3 fe80::1\n";
    assert_eq!(
        get_own_ip(listing, ListingFormat::AddressList),
        Some(Address::new(192, 168, 1, 10))
    );
    assert_eq!(
        get_own_ip(b"  10.1.2.3\t", ListingFormat::AddressList),
        Some(Address::new(10, 1, 2, 3))
    );
}

#[test]
fn address_list_without_private_address() {
    assert_eq!(get_own_ip(b"127.0.0.1 172.16.5.4\n", ListingFormat::AddressList), None);
    assert_eq!(get_own_ip(b"", ListingFormat::AddressList), None);
    assert_eq!(get_own_ip(b"192.168.1.300", ListingFormat::AddressList), None);
}

#[test]
fn interface_report_gives_ipv4_line() {
    let report = b"Windows IP Configuration\r\n\r\nEthernet adapter Ethernet:\r\n\r\n   Link-local IPv6 Address . . . . . : fe80::1%4\r\n   IPv4 Address. . . . . . . . . . . : 192.168.1.10\r\n   Subnet Mask . . . . . . . . . . . : 255.255.255.0\r\n   Default Gateway . . . . . . . . . : 192.168.1.1\r\n";
    assert_eq!(
        get_own_ip(report, ListingFormat::InterfaceReport),
        Some(Address::new(192, 168, 1, 10))
    );
    assert_eq!(get_local_network(report, ListingFormat::InterfaceReport), Some((192, 168, 1)));
}

#[test]
fn interface_report_skips_public_and_unlabelled_lines() {
    let report = b"   IPv4 Address. . . : 172.16.0.9\n   Gateway . . . : 10.0.0.1\n   IPv4 Address. . . : 10.4.5.6\n";
    assert_eq!(
        get_own_ip(report, ListingFormat::InterfaceReport),
        Some(Address::new(10, 4, 5, 6))
    );
    assert_eq!(get_own_ip(b"IPv4 Address 192.168.0.2\n", ListingFormat::InterfaceReport), None);
}

#[test]
fn local_network_is_first_three_octets() {
    assert_eq!(
        get_local_network(b"192.168.178.98\n", ListingFormat::AddressList),
        Some((192, 168, 178))
    );
    assert_eq!(get_local_network(b"8.8.8.8\n", ListingFormat::AddressList), None);
}

#[test]
fn resolution_errors() {
    assert_eq!(
        resolve_own_network(None, ListingFormat::AddressList),
        Err(ResolutionError::PlatformQueryFailed)
    );
    assert_eq!(
        resolve_own_network(Some(b"127.0.0.1\n"), ListingFormat::AddressList),
        Err(ResolutionError::NoPrivateAddressFound)
    );
    let (own, subnet) =
        resolve_own_network(Some(b"192.168.1.10\n"), ListingFormat::AddressList).unwrap();
    assert_eq!(own, Address::new(192, 168, 1, 10));
    assert_eq!(subnet, own.subnet());
    assert_eq!((subnet.a, subnet.b, subnet.c), (192, 168, 1));
}
