use rustshooter::address::{certificate_hash, append_default_port, hex_decode, hex_nibble, parse_u16_chars, wasm_netcode_port};
use rustshooter::server_config::cert_digest;
use rustshooter::text::to_chars;

#[test]
fn default_port_is_appended_when_missing() {
    assert_eq!(append_default_port("192.168.1.10", false), "192.168.1.10:7777");
    assert_eq!(append_default_port("play.example.com", false), "play.example.com:7777");
    assert_eq!(append_default_port("", false), ":7777");
}

#[test]
fn explicit_port_is_kept() {
    assert_eq!(append_default_port("192.168.1.10:9000", false), "192.168.1.10:9000");
    assert_eq!(append_default_port("play.example.com:9000", false), "play.example.com:9000");
    assert_eq!(append_default_port("[::1]:9000", false), "[::1]:9000");
}

#[test]
fn ipv6_addresses_get_brackets_and_port() {
    assert_eq!(append_default_port("::1", true), "[::1]:7777");
    assert_eq!(append_default_port("fe80::1", true), "[fe80::1]:7777");
    assert_eq!(append_default_port("[::1]", false), "[::1]:7777");
}

#[test]
fn a_second_pass_changes_nothing() {
    for (addr, ip) in [
        ("192.168.1.10", false),
        ("host:1", false),
        ("::1", true),
        ("[::1]", false),
        ("[::1]:5", false),
        ("", false),
    ] {
        let once = append_default_port(addr, ip);
        assert_eq!(append_default_port(&once, false), once);
    }
    // An unclosed bracket gets the port again on every pass.
    let once = append_default_port("[abc", false);
    assert_eq!(once, "[abc:7777");
    assert_eq!(append_default_port(&once, false), "[abc:7777:7777");
}

#[test]
fn u16_parsing_like_str_parse() {
    let v = to_chars("x:7778");
    assert_eq!(parse_u16_chars(&v, 2), Some(7778));
    let v = to_chars("+65535");
    assert_eq!(parse_u16_chars(&v, 0), Some(65535));
    let v = to_chars("65536");
    assert_eq!(parse_u16_chars(&v, 0), None);
    let v = to_chars("");
    assert_eq!(parse_u16_chars(&v, 0), None);
    let v = to_chars("+");
    assert_eq!(parse_u16_chars(&v, 0), None);
    let v = to_chars("12a");
    assert_eq!(parse_u16_chars(&v, 0), None);
    let v = to_chars("-1");
    assert_eq!(parse_u16_chars(&v, 0), None);
    let v = to_chars("007");
    assert_eq!(parse_u16_chars(&v, 0), Some(7));
}

#[test]
fn browser_port_falls_back_to_7778() {
    assert_eq!(wasm_netcode_port("play.example.com:9000"), 9000);
    assert_eq!(wasm_netcode_port("play.example.com"), 7778);
    assert_eq!(wasm_netcode_port("play.example.com:x"), 7778);
    assert_eq!(wasm_netcode_port("a:1:2"), 2);
    assert_eq!(wasm_netcode_port("host:"), 7778);
    assert_eq!(wasm_netcode_port("host:70000"), 7778);
}

#[test]
fn hex_digits() {
    assert_eq!(hex_nibble(b'0'), Ok(0));
    assert_eq!(hex_nibble(b'9'), Ok(9));
    assert_eq!(hex_nibble(b'a'), Ok(10));
    assert_eq!(hex_nibble(b'F'), Ok(15));
    assert_eq!(hex_nibble(b'g'), Err("Invalid hex byte: 0x67".to_string()));
    assert_eq!(hex_nibble(0x0a), Err("Invalid hex byte: 0x0a".to_string()));
}

#[test]
fn hex_decoding() {
    assert_eq!(hex_decode(""), Ok(vec![]));
    assert_eq!(hex_decode("4a9f3C"), Ok(vec![0x4a, 0x9f, 0x3c]));
    assert_eq!(hex_decode("abc"), Err("Odd-length hex string: \"abc\"".to_string()));
    assert_eq!(hex_decode("4z"), Err("Invalid hex byte: 0x7a".to_string()));
    assert_eq!(hex_decode("x1"), Err("Invalid hex byte: 0x78".to_string()));
    // Two-byte characters count as two bytes.
    assert_eq!(hex_decode("é"), Err("Invalid hex byte: 0xc3".to_string()));
}

#[test]
fn lower_hex_round_trip() {
    let data: Vec<u8> = (0u8..=255).collect();
    let text: String = data.iter().map(|b| format!("{:02x}", b)).collect();
    assert_eq!(hex_decode(&text), Ok(data));
}

#[test]
fn digest_without_colons() {
    assert_eq!(cert_digest("4A:9F:3C"), "4A9F3C");
    assert_eq!(cert_digest(""), "");
    assert_eq!(cert_digest("::"), "");
}

#[test]
fn certificate_hash_of_a_digest() {
    assert_eq!(certificate_hash(""), Ok(None));
    assert_eq!(certificate_hash("00ff"), Ok(Some(vec![0x00, 0xff])));
    assert_eq!(certificate_hash("0"), Err("Odd-length hex string: \"0\"".to_string()));
    assert_eq!(certificate_hash("zz"), Err("Invalid hex byte: 0x7a".to_string()));
}

#[test]
fn hex_round_trip_in_any_case() {
    assert_eq!(hex_decode("0aFF"), Ok(vec![0x0a, 0xff]));
    assert_eq!(hex_decode("0g"), Err("Invalid hex byte: 0x67".to_string()));
    let data: Vec<u8> = (0u8..=255).collect();
    let upper: String = data.iter().map(|b| format!("{:02X}", b)).collect();
    assert_eq!(hex_decode(&upper), Ok(data.clone()));
    let mixed: String = data
        .iter()
        .enumerate()
        .map(|(i, b)| if i % 2 == 0 { format!("{:02X}", b) } else { format!("{:02x}", b) })
        .collect();
    assert_eq!(hex_decode(&mixed), Ok(data));
}
