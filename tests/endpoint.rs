use tunnel_session::endpoint::{parse_independent_endpoint, EndpointError};

const KEY_HEX: &str = "00112233445566778899aabbccddeeff00112233445566778899AABBCCDDEEFF";

fn key_bytes() -> [u8; 32] {
    let mut k = [0u8; 32];
    for i in 0..16 {
        k[i] = (i as u8) * 0x11;
        k[i + 16] = (i as u8) * 0x11;
    }
    k
}

#[test]
fn parses_key_and_address() {
    let text = format!("{}@10.0.0.1:443", KEY_HEX);
    let (addr, key) = parse_independent_endpoint(&text).unwrap();
    assert_eq!(addr, "10.0.0.1:443");
    assert_eq!(key, key_bytes());
}

#[test]
fn parses_ipv6_endpoint() {
    let text = format!("{}@[::1]:443", "AB".repeat(32));
    let (addr, key) = parse_independent_endpoint(&text).unwrap();
    assert_eq!(addr, "[::1]:443");
    assert_eq!(key, [0xab; 32]);
}

#[test]
fn rejects_second_separator() {
    let text = format!("{}@1.2.3.4:5@junk", KEY_HEX);
    assert_eq!(parse_independent_endpoint(&text), Err(EndpointError::BadSeparator));
}

#[test]
fn rejects_short_key() {
    let text = format!("{}@10.0.0.1:443", &KEY_HEX[..62]);
    assert_eq!(parse_independent_endpoint(&text), Err(EndpointError::BadKey));
}

#[test]
fn rejects_odd_length_key() {
    let text = format!("{}@10.0.0.1:443", &KEY_HEX[..63]);
    assert_eq!(parse_independent_endpoint(&text), Err(EndpointError::BadKey));
}

#[test]
fn rejects_non_hex_key() {
    let text = format!("{}g@10.0.0.1:443", &KEY_HEX[..63]);
    assert_eq!(parse_independent_endpoint(&text), Err(EndpointError::BadKey));
}

#[test]
fn rejects_missing_separator() {
    assert_eq!(parse_independent_endpoint(KEY_HEX), Err(EndpointError::BadSeparator));
}

#[test]
fn rejects_empty_input() {
    assert_eq!(parse_independent_endpoint(""), Err(EndpointError::BadKey));
}

#[test]
fn keeps_non_ascii_address_text() {
    let text = format!("{}@hôst:1", KEY_HEX);
    let (addr, _) = parse_independent_endpoint(&text).unwrap();
    assert_eq!(addr, "hôst:1");
}

#[test]
fn formatted_endpoint_parses_back() {
    let mut k = [0u8; 32];
    for (i, b) in k.iter_mut().enumerate() {
        *b = (i as u8).wrapping_mul(37).wrapping_add(5);
    }
    for addr in ["203.0.113.9:1", "[2001:db8::1]:8443"] {
        let text = format!("{}@{}", hex::encode(k), addr);
        assert_eq!(parse_independent_endpoint(&text), Ok((addr.to_string(), k)));
    }
}
