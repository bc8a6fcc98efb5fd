use new_p2p_crawler::address::{classify, onion_v3_digest, render_addr, NetworkType, Transport};
use new_p2p_crawler::encoding::encode_base32_lower;
use new_p2p_crawler::ip::{format_ipv4, format_ipv6, parse_ipv4, parse_ipv6};
use new_p2p_crawler::text::{
    chars_eq, chars_of, contains, decimal_string, find, read_numeral, signed_string, split_chars,
    str_eq, string_of, trim_chars,
};

#[test]
fn classifies_ipv4() {
    assert_eq!(classify("192.0.2.5"), NetworkType::Ipv4);
    assert_eq!(classify("255.255.255.255"), NetworkType::Ipv4);
    assert_eq!(classify("256.0.0.1"), NetworkType::Unknown);
    assert_eq!(classify("1.2.3"), NetworkType::Unknown);
}

#[test]
fn classifies_ipv6_and_cjdns() {
    assert_eq!(classify("2001:db8::1"), NetworkType::Ipv6);
    assert_eq!(classify("fc00::1"), NetworkType::Cjdns);
    // Uppercase / zero-compressed must still be detected via parsing.
    assert_eq!(classify("FC00::1"), NetworkType::Cjdns);
    assert_eq!(classify("not:valid:ipv6:::"), NetworkType::Unknown);
}

#[test]
fn classifies_onion_and_i2p() {
    let invalid_v3 = format!("{}.onion", "a".repeat(56));
    assert_eq!(classify(&invalid_v3), NetworkType::Unknown);
    let v2 = format!("{}.onion", "a".repeat(16));
    assert_eq!(classify(&v2), NetworkType::OnionV2);
    let i2p = format!("{}.b32.i2p", "a".repeat(52));
    assert_eq!(classify(&i2p), NetworkType::I2p);
    assert_eq!(classify(&format!("{}.onion", "0".repeat(16))), NetworkType::Unknown);
    assert_eq!(classify(&format!("{}.b32.i2p", "!".repeat(52))), NetworkType::Unknown);
}

#[test]
fn renders_bracketed() {
    assert_eq!(render_addr("2001:db8::1", 8333), "[2001:db8::1]:8333");
    assert_eq!(render_addr("192.0.2.5", 8333), "192.0.2.5:8333");
}

#[test]
fn classifies_published_onion_services() {
    assert_eq!(
        classify("duckduckgogg42xjoc72x3sjasowoarfbgcmvfimaftt6twagswzczad.onion"),
        NetworkType::OnionV3
    );
    assert_eq!(
        classify("facebookwkhpilnemxj7asaniu7vnjjbiltxjqhye3mhbshg7kx5tfyd.onion"),
        NetworkType::OnionV3
    );
    // One changed symbol breaks the checksum.
    assert_eq!(
        classify("duckduckgogg42xjoc72x3sjasowoarfbgcmvfimaftt6twagswzczae.onion"),
        NetworkType::Unknown
    );
}

#[test]
fn base32_labels_are_lowercase_and_canonical() {
    // Uppercase labels are not host names.
    assert_eq!(classify(&format!("{}.onion", "A".repeat(16))), NetworkType::Unknown);
    // The four bits behind 32 bytes have to be zero: `q` is sixteen, `b` is one.
    let canonical = format!("{}q.b32.i2p", "a".repeat(51));
    assert_eq!(classify(&canonical), NetworkType::I2p);
    let trailing = format!("{}b.b32.i2p", "a".repeat(51));
    assert_eq!(classify(&trailing), NetworkType::Unknown);
    assert_eq!(encode_base32_lower(b"foobar"), "mzxw6ytboi");
    assert_eq!(encode_base32_lower(&[0xff]), "74");
    assert_eq!(encode_base32_lower(&[]), "");
}

#[test]
fn dotted_quads_take_leading_zeros_in_classification_only() {
    assert_eq!(classify("001.002.003.0004"), NetworkType::Ipv4);
    assert!(parse_ipv4(&chars_of("001.2.3.4")).is_none());
    assert_eq!(parse_ipv4(&chars_of("1.2.3.4")), Some(vec![1, 2, 3, 4]));
    assert_eq!(classify("1.2.3.+4"), NetworkType::Unknown);
    assert_eq!(classify("1.2.3."), NetworkType::Unknown);
    assert_eq!(classify("example.org"), NetworkType::Unknown);
    assert_eq!(classify(""), NetworkType::Unknown);
}

#[test]
fn ipv6_text_is_canonical() {
    let mut o = [0u8; 16];
    assert_eq!(format_ipv6(&o), "::");
    o[15] = 1;
    assert_eq!(format_ipv6(&o), "::1");
    o[0] = 0x20;
    o[1] = 0x01;
    o[2] = 0x0d;
    o[3] = 0xb8;
    assert_eq!(format_ipv6(&o), "2001:db8::1");
    // The first of two equally long runs is left out.
    let two_runs = [0, 1, 0, 0, 0, 0, 0, 2, 0, 0, 0, 0, 0, 3, 0, 4];
    assert_eq!(format_ipv6(&two_runs), "1::2:0:0:3:4");
    // A single zero group is written.
    let single = [0, 1, 0, 0, 0, 2, 0, 3, 0, 4, 0, 5, 0, 6, 0, 7];
    assert_eq!(format_ipv6(&single), "1:0:2:3:4:5:6:7");
    let mapped = [0, 0, 0, 0, 0, 0, 0, 0, 0, 0, 0xff, 0xff, 1, 2, 3, 4];
    assert_eq!(format_ipv6(&mapped), "::ffff:1.2.3.4");
    assert_eq!(format_ipv4(&[127, 0, 0, 255]), "127.0.0.255");
}

#[test]
fn ipv6_text_reads_back() {
    let samples: [[u8; 16]; 5] = [
        [0; 16],
        [0xff; 16],
        [0, 0, 0, 0, 0, 0, 0, 0, 0, 0, 0xff, 0xff, 9, 8, 7, 6],
        [0xfc, 0, 0, 0, 0, 1, 0, 0, 0, 0, 0, 0, 0, 0, 0, 2],
        [1, 2, 3, 4, 5, 6, 7, 8, 9, 10, 11, 12, 13, 14, 15, 16],
    ];
    for o in samples {
        let text = chars_of(&format_ipv6(&o));
        let groups = parse_ipv6(&text).unwrap();
        for i in 0..8 {
            assert_eq!(groups[i], o[2 * i] as u16 * 256 + o[2 * i + 1] as u16);
        }
    }
}

#[test]
fn ipv6_notation_is_checked() {
    let ok = |s: &str| parse_ipv6(&chars_of(s)).is_some();
    assert!(ok("::"));
    assert!(ok("1::"));
    assert!(ok("::1.2.3.4"));
    assert!(ok("1:2:3:4:5:6:1.2.3.4"));
    assert!(ok("1:2:3:4:5:6:7::"));
    assert!(!ok(""));
    assert!(!ok(":"));
    assert!(!ok(":::"));
    assert!(!ok("1::2::3"));
    assert!(!ok("1:2:3:4:5:6:7:8::"));
    assert!(!ok("12345::"));
    assert!(!ok("1.2.3.4::"));
    assert!(!ok("::1.2.3.4:5"));
    assert!(!ok("1:2:3:4:5:6:7"));
    assert!(!ok("::g"));
}

#[test]
fn network_types_have_labels_and_transports() {
    let all = [
        (NetworkType::Ipv4, "ipv4", Transport::Ip),
        (NetworkType::Ipv6, "ipv6", Transport::Ip),
        (NetworkType::Cjdns, "cjdns", Transport::Ip),
        (NetworkType::OnionV2, "onion_v2", Transport::Tor),
        (NetworkType::OnionV3, "onion_v3", Transport::Tor),
        (NetworkType::I2p, "i2p", Transport::I2p),
        (NetworkType::Unknown, "unknown", Transport::Ip),
    ];
    for (network, label, transport) in all {
        assert_eq!(network.as_str(), label);
        assert_eq!(network.transport(), transport);
    }
}

#[test]
fn onion_digest_covers_the_key() {
    assert_ne!(onion_v3_digest(&[7; 32]), onion_v3_digest(&[8; 32]));
}

#[test]
fn numerals_are_written_and_read() {
    assert_eq!(decimal_string(0), "0");
    assert_eq!(decimal_string(u64::MAX), "18446744073709551615");
    assert_eq!(signed_string(i64::MIN), "-9223372036854775808");
    assert_eq!(signed_string(42), "42");
    assert_eq!(read_numeral(&chars_of("0042"), 10, 100), Some(42));
    assert_eq!(read_numeral(&chars_of("101"), 10, 100), None);
    assert_eq!(read_numeral(&chars_of("fF"), 16, 1000), Some(255));
    assert_eq!(read_numeral(&chars_of(""), 10, 100), None);
    assert_eq!(
        read_numeral(&chars_of("18446744073709551616"), 10, u64::MAX),
        None
    );
}

#[test]
fn text_is_searched_split_and_trimmed() {
    assert_eq!(find(&chars_of("a::b::c"), &chars_of("::")), Some(1));
    assert!(contains("HELLO REPLY RESULT=OK", "RESULT=OK"));
    assert!(!contains("RESULT=KO", "RESULT=OK"));
    let parts = split_chars(&chars_of("a,,b"), ',');
    assert_eq!(parts, vec![vec!['a'], vec![], vec!['b']]);
    assert_eq!(
        string_of(&trim_chars(&chars_of(" \u{a0}\tx y\u{3000}\n"))),
        "x y"
    );
    assert!(str_eq("abc", "abc") && !str_eq("abc", "abd"));
    assert!(!chars_eq(&['a'], &['a', 'b']));
}
