use elgato_keylight::net::{device_url, ipv4_bytes, parse_ipv4, DeviceAddress};

fn parse(s: &[u8]) -> Option<(u8, u8, u8, u8)> {
    parse_ipv4(&s.to_vec())
}

#[test]
fn parses_canonical_dotted_quads() {
    assert_eq!(parse(b"192.168.0.1"), Some((192, 168, 0, 1)));
    assert_eq!(parse(b"0.0.0.0"), Some((0, 0, 0, 0)));
    assert_eq!(parse(b"255.255.255.255"), Some((255, 255, 255, 255)));
    assert_eq!(parse(b"10.0.42.9"), Some((10, 0, 42, 9)));
    assert_eq!(parse(b"1.22.333.4"), None);
    assert_eq!(parse(b"9.99.199.249"), Some((9, 99, 199, 249)));
}

#[test]
fn rejects_out_of_range_octets() {
    assert_eq!(parse(b"256.0.0.1"), None);
    assert_eq!(parse(b"1.2.3.999"), None);
    assert_eq!(parse(b"300.300.300.300"), None);
}

#[test]
fn rejects_leading_zeros() {
    assert_eq!(parse(b"01.2.3.4"), None);
    assert_eq!(parse(b"1.2.3.04"), None);
    assert_eq!(parse(b"00.0.0.0"), None);
}

#[test]
fn rejects_malformed_shapes() {
    assert_eq!(parse(b""), None);
    assert_eq!(parse(b"1.2.3"), None);
    assert_eq!(parse(b"1.2.3."), None);
    assert_eq!(parse(b"1.2.3.4.5"), None);
    assert_eq!(parse(b".1.2.3.4"), None);
    assert_eq!(parse(b"1..2.3"), None);
    assert_eq!(parse(b"a.b.c.d"), None);
    assert_eq!(parse(b"1.2.3.4 "), None);
    assert_eq!(parse(b" 1.2.3.4"), None);
    assert_eq!(parse(b"1234.1.2.3"), None);
}

#[test]
fn parse_inverts_rendering() {
    let addr = DeviceAddress { oct0: 172, oct1: 16, oct2: 254, oct3: 3, port: 0 };
    let text = ipv4_bytes(&addr);
    assert_eq!(text, b"172.16.254.3".to_vec());
    assert_eq!(parse_ipv4(&text), Some((172, 16, 254, 3)));
}

#[test]
fn url_is_http_endpoint_of_address_and_port() {
    let addr = DeviceAddress { oct0: 192, oct1: 168, oct2: 0, oct3: 1, port: 9123 };
    assert_eq!(device_url(&addr), b"http://192.168.0.1:9123/elgato/lights".to_vec());
    let addr2 = DeviceAddress { oct0: 10, oct1: 0, oct2: 0, oct3: 7, port: 80 };
    assert_eq!(device_url(&addr2), b"http://10.0.0.7:80/elgato/lights".to_vec());
}

#[test]
fn url_handles_extreme_octets_and_port() {
    let addr = DeviceAddress { oct0: 0, oct1: 255, oct2: 0, oct3: 255, port: 65535 };
    assert_eq!(device_url(&addr), b"http://0.255.0.255:65535/elgato/lights".to_vec());
}
