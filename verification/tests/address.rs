use pocket::addr::{parse_port, split_host_port, first_ipv4, SockAddr, AddressError};
use pocket::parse_address;

#[test]
fn parse_port_accepts_decimal() {
    assert_eq!(parse_port("0"), Ok(0));
    assert_eq!(parse_port("9000"), Ok(9000));
    assert_eq!(parse_port("65535"), Ok(65535));
}

#[test]
fn parse_port_rejects_bad_text() {
    assert_eq!(parse_port(""), Err(AddressError::InvalidPort));
    assert_eq!(parse_port("9a"), Err(AddressError::InvalidPort));
    assert_eq!(parse_port("-1"), Err(AddressError::InvalidPort));
    assert_eq!(parse_port("65536"), Err(AddressError::InvalidPort));
    assert_eq!(parse_port("999999999999"), Err(AddressError::InvalidPort));
}

#[test]
fn split_uses_explicit_port() {
    let hp = split_host_port("localhost:9000", Some(80)).unwrap();
    assert_eq!(hp.host, "localhost");
    assert_eq!(hp.port, 9000);
}

#[test]
fn split_falls_back_to_default_port() {
    let hp = split_host_port("localhost", Some(9000)).unwrap();
    assert_eq!(hp.host, "localhost");
    assert_eq!(hp.port, 9000);
}

#[test]
fn split_without_any_port_fails() {
    assert_eq!(
        split_host_port("localhost", None).map(|hp| hp.port),
        Err(AddressError::NoPort)
    );
}

#[test]
fn split_with_bad_port_fails() {
    assert_eq!(
        split_host_port("localhost:http", Some(80)).map(|hp| hp.port),
        Err(AddressError::InvalidPort)
    );
}

#[test]
fn first_ipv4_skips_non_v4_entries() {
    assert_eq!(first_ipv4(&[None, None, Some(0x7f000001), Some(5)]), Some(0x7f000001));
    assert_eq!(first_ipv4(&[Some(9)]), Some(9));
    assert_eq!(first_ipv4(&[None, None]), None);
    assert_eq!(first_ipv4(&[]), None);
}

#[test]
fn parse_address_combines_port_and_first_v4() {
    let resolved = vec![None, Some(0x7f000001u32)];
    assert_eq!(
        parse_address("localhost:9000", Some(80), resolved.as_slice()),
        Ok(SockAddr { ip: 0x7f000001, port: 9000 })
    );
    assert_eq!(
        parse_address("localhost", Some(80), resolved.as_slice()),
        Ok(SockAddr { ip: 0x7f000001, port: 80 })
    );
}

#[test]
fn parse_address_reports_each_failure() {
    assert_eq!(
        parse_address("host:bad", Some(80), &[Some(1)]),
        Err(AddressError::InvalidPort)
    );
    assert_eq!(parse_address("host", None, &[Some(1)]), Err(AddressError::NoPort));
    assert_eq!(parse_address("host:80", None, &[None]), Err(AddressError::NoIpv4));
    assert_eq!(parse_address("host:80", None, &[]), Err(AddressError::NoIpv4));
}
