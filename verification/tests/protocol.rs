use new_p2p_crawler::address::{classify, NetworkType};
use new_p2p_crawler::io_error::IoErrorKind;
use new_p2p_crawler::protocol::{
    build_version, checksum, decode_addrv2, decode_legacy_ip, encode_onion_v3, frame, hex,
    parse_addr, parse_addrv2, parse_version, write_compact_size, AddrParseError, Cursor, MAGIC,
    MAX_PROTOCOL_MESSAGE_LENGTH, MAX_SUBVERSION_LENGTH, PROTOCOL_VERSION, USER_AGENT,
};

#[test]
fn compact_size_roundtrip() {
    for v in [
        0u64,
        0xFC,
        0xFD,
        0xFFFF,
        0x1_0000,
        0xFFFF_FFFF,
        0x1_0000_0000,
    ] {
        let mut buf = Vec::new();
        write_compact_size(&mut buf, v);
        let mut c = Cursor::new(&buf);
        assert_eq!(c.compact_size(), Some(v));
    }
}

#[test]
fn version_roundtrip() {
    let payload = build_version(1_720_000_000, 0xdead_beef);
    let v = parse_version(&payload).unwrap();
    assert_eq!(v.version, PROTOCOL_VERSION);
    assert_eq!(v.services, 0);
    assert_eq!(v.user_agent, USER_AGENT);
    assert_eq!(v.latest_block, 0);
    assert!(!v.relay);
}

#[test]
fn absent_relay_is_true() {
    // Build a version at exactly the boundary with no relay byte.
    let mut p = build_version(1, 2);
    p.pop(); // remove relay byte
    let v = parse_version(&p).unwrap();
    assert!(v.relay);
}

#[test]
fn version_rejects_oversize_and_noncanonical_user_agents() {
    const USER_AGENT_OFFSET: usize = 80;
    let base = build_version(1, 2);

    let mut oversized = base[..USER_AGENT_OFFSET].to_vec();
    write_compact_size(&mut oversized, (MAX_SUBVERSION_LENGTH + 1) as u64);
    oversized.extend(std::iter::repeat(b'x').take(MAX_SUBVERSION_LENGTH + 1));
    oversized.extend_from_slice(&0i32.to_le_bytes());
    oversized.push(0);
    assert!(parse_version(&oversized).is_none());

    let mut noncanonical = base[..USER_AGENT_OFFSET].to_vec();
    noncanonical.extend_from_slice(&[0xfd, 1, 0]);
    noncanonical.push(b'x');
    noncanonical.extend_from_slice(&0i32.to_le_bytes());
    noncanonical.push(0);
    assert!(parse_version(&noncanonical).is_none());
}

#[test]
fn addr_timestamp_zero_extends() {
    // Build one addr record with a high-bit timestamp.
    let mut payload = Vec::new();
    write_compact_size(&mut payload, 1);
    payload.extend_from_slice(&0xFFFF_FFFFu32.to_le_bytes()); // timestamp
    payload.extend_from_slice(&0u64.to_le_bytes()); // services
    payload.extend_from_slice(&[0, 0, 0, 0, 0, 0, 0, 0, 0, 0, 0xFF, 0xFF, 1, 2, 3, 4]);
    payload.extend_from_slice(&8333u16.to_be_bytes());
    let parsed = parse_addr(&payload).unwrap();
    assert_eq!(parsed.addrs.len(), 1);
    assert_eq!(parsed.addrs[0].timestamp, 0xFFFF_FFFF); // zero-extended, not -1
    assert_eq!(parsed.addrs[0].host, "1.2.3.4");
    assert_eq!(parsed.addrs[0].network, NetworkType::Ipv4);
}

#[test]
fn addrv2_torv3_roundtrips_through_classify() {
    let pubkey = [7u8; 32];
    let mut payload = Vec::new();
    write_compact_size(&mut payload, 1);
    payload.extend_from_slice(&0u32.to_le_bytes()); // ts
    write_compact_size(&mut payload, 0); // services
    payload.push(4); // net id torv3
    write_compact_size(&mut payload, 32); // addr len
    payload.extend_from_slice(&pubkey);
    payload.extend_from_slice(&8333u16.to_be_bytes());
    let parsed = parse_addrv2(&payload).unwrap();
    assert_eq!(parsed.addrs.len(), 1);
    assert_eq!(parsed.addrs[0].network, NetworkType::OnionV3);
    assert_eq!(classify(&parsed.addrs[0].host), NetworkType::OnionV3);
}

#[test]
fn addrv2_torv2_is_decoded_and_counted_as_known() {
    let mut payload = Vec::new();
    write_compact_size(&mut payload, 1);
    payload.extend_from_slice(&0u32.to_le_bytes());
    write_compact_size(&mut payload, 0);
    payload.push(3);
    write_compact_size(&mut payload, 10);
    payload.extend_from_slice(&[0u8; 10]);
    payload.extend_from_slice(&8333u16.to_be_bytes());

    let parsed = parse_addrv2(&payload).unwrap();
    assert_eq!(parsed.unknown_entries, 0);
    assert_eq!(parsed.addrs.len(), 1);
    assert_eq!(parsed.addrs[0].network, NetworkType::OnionV2);
    assert_eq!(classify(&parsed.addrs[0].host), NetworkType::OnionV2);
}

#[test]
fn addrv2_length_mismatch_stops() {
    let mut payload = Vec::new();
    write_compact_size(&mut payload, 1);
    payload.extend_from_slice(&0u32.to_le_bytes());
    write_compact_size(&mut payload, 0);
    payload.push(1); // ipv4
    write_compact_size(&mut payload, 16); // wrong length
    payload.extend_from_slice(&[0u8; 16]);
    payload.extend_from_slice(&8333u16.to_be_bytes());
    assert_eq!(
        parse_addrv2(&payload).unwrap_err(),
        AddrParseError::WrongLength {
            network_id: 1,
            length: 16
        }
    );
}

#[test]
fn address_vectors_reject_noncanonical_oversize_truncated_and_trailing() {
    assert_eq!(
        parse_addr(&[0xfd, 1, 0]).unwrap_err(),
        AddrParseError::NonCanonicalOrTruncated
    );
    let mut oversized = Vec::new();
    write_compact_size(&mut oversized, 1001);
    assert_eq!(
        parse_addr(&oversized).unwrap_err(),
        AddrParseError::TooMany(1001)
    );

    let mut truncated = vec![1];
    truncated.extend_from_slice(&0u32.to_le_bytes());
    assert_eq!(
        parse_addr(&truncated).unwrap_err(),
        AddrParseError::NonCanonicalOrTruncated
    );
    assert_eq!(
        parse_addr(&[0, 42]).unwrap_err(),
        AddrParseError::TrailingBytes(1)
    );
}

#[test]
fn unknown_addrv2_network_is_consumed_before_later_valid_entry() {
    let mut payload = vec![2];
    payload.extend_from_slice(&0u32.to_le_bytes());
    payload.push(0); // services
    payload.push(99); // future network
    payload.push(3); // address length
    payload.extend_from_slice(&[1, 2, 3]);
    payload.extend_from_slice(&8333u16.to_be_bytes());
    payload.extend_from_slice(&0u32.to_le_bytes());
    payload.push(0);
    payload.push(1); // IPv4
    payload.push(4);
    payload.extend_from_slice(&[1, 2, 3, 4]);
    payload.extend_from_slice(&8333u16.to_be_bytes());
    let parsed = parse_addrv2(&payload).unwrap();
    assert_eq!(parsed.declared_count, 2);
    assert_eq!(parsed.unknown_entries, 1);
    assert_eq!(parsed.addrs.len(), 1);
    assert_eq!(parsed.addrs[0].host, "1.2.3.4");
}

#[test]
fn wire_network_pairing_is_enforced() {
    let mapped = [0, 0, 0, 0, 0, 0, 0, 0, 0, 0, 0xff, 0xff, 1, 2, 3, 4];
    assert_eq!(
        decode_addrv2(2, &mapped).unwrap_err(),
        AddrParseError::InvalidNetworkEncoding(2)
    );
    assert_eq!(
        decode_addrv2(6, &[0x20; 16]).unwrap_err(),
        AddrParseError::InvalidNetworkEncoding(6)
    );
    let mut cjdns = [0u8; 16];
    cjdns[0] = 0xfc;
    assert_eq!(
        decode_addrv2(6, &cjdns).unwrap().unwrap().1,
        NetworkType::Cjdns
    );
}

#[test]
fn legacy_fc_address_remains_ipv6() {
    let mut address = [0u8; 16];
    address[0] = 0xfc;
    assert_eq!(decode_legacy_ip(&address).1, NetworkType::Ipv6);
}

#[test]
fn frame_validates_internal_commands_and_payload_limit() {
    assert!(frame("this-command-is-too-long", &[]).is_err());
    assert!(frame("bad\0command", &[]).is_err());
    assert!(frame("ping", &vec![0; MAX_PROTOCOL_MESSAGE_LENGTH as usize + 1]).is_err());
}

#[test]
fn frame_errors_are_invalid_input() {
    let e = frame("", &[]).unwrap_err();
    assert_eq!(e.kind, IoErrorKind::InvalidInput);
    assert_eq!(e.message, "command must be 1..=12 printable ASCII bytes");
    assert_eq!(e.raw_os_error, None);
    let e = frame("ping", &vec![0; 4_000_001]).unwrap_err();
    assert_eq!(e.message, "payload exceeds protocol limit");
    assert!(frame("ping", &vec![0; 4_000_000]).is_ok());
    assert!(frame("twelve-chars", &[]).is_ok());
    assert!(frame("umläut", &[]).is_err());
}

#[test]
fn verack_frame_is_exact() {
    assert_eq!(checksum(&[]), [0x5d, 0xf6, 0xe0, 0xe2]);
    let bytes = frame("verack", &[]).unwrap();
    let mut want = MAGIC.to_vec();
    want.extend_from_slice(b"verack\0\0\0\0\0\0");
    want.extend_from_slice(&[0, 0, 0, 0]);
    want.extend_from_slice(&[0x5d, 0xf6, 0xe0, 0xe2]);
    assert_eq!(bytes, want);
}

#[test]
fn version_payload_is_exact() {
    let p = build_version(-1, 0x0102_0304_0506_0708);
    assert_eq!(p.len(), 4 + 8 + 8 + 26 + 26 + 8 + 1 + 23 + 4 + 1);
    assert_eq!(&p[..4], &70016i32.to_le_bytes());
    assert_eq!(&p[12..20], &(-1i64).to_le_bytes());
    assert_eq!(&p[72..80], &[8, 7, 6, 5, 4, 3, 2, 1]);
    assert_eq!(p[80], 23);
    assert_eq!(&p[81..104], USER_AGENT.as_bytes());
    let v = parse_version(&p).unwrap();
    assert_eq!(v.timestamp, -1);
    assert_eq!(v.nonce, Some(0x0102_0304_0506_0708));
    assert_eq!(v.addr_recv.host, "0.0.0.0");
    assert_eq!(v.addr_recv.port, 0);
    assert_eq!(v.addr_from.unwrap().host, "0.0.0.0");
}

#[test]
fn old_versions_end_after_the_first_address() {
    let mut p = build_version(5, 6);
    p[..4].copy_from_slice(&105i32.to_le_bytes());
    p.truncate(46);
    let v = parse_version(&p).unwrap();
    assert_eq!(v.version, 105);
    assert_eq!(v.user_agent, "");
    assert!(v.relay);
    assert!(v.addr_from.is_none() && v.nonce.is_none());
    assert!(parse_version(&p[..45]).is_none());
    p[..4].copy_from_slice(&106i32.to_le_bytes());
    assert!(parse_version(&p).is_none());
}

#[test]
fn user_agents_that_are_not_utf8_become_hexadecimal() {
    let base = build_version(1, 2);
    let mut p = base[..80].to_vec();
    p.extend_from_slice(&[2, 0xff, 0x0a]);
    p.extend_from_slice(&7i32.to_le_bytes());
    let v = parse_version(&p).unwrap();
    assert_eq!(v.user_agent, "ff0a");
    assert_eq!(v.latest_block, 7);
    let mut q = base[..80].to_vec();
    q.extend_from_slice(&[2]);
    q.extend_from_slice("é".as_bytes());
    q.extend_from_slice(&(-2i32).to_le_bytes());
    let w = parse_version(&q).unwrap();
    assert_eq!(w.user_agent, "é");
    assert_eq!(w.latest_block, -2);
    assert_eq!(hex(&[0, 0x1f, 0xa0]), "001fa0");
}

#[test]
fn canonical_sizes_are_minimal() {
    for bytes in [
        vec![0xfdu8, 0xfc, 0],
        vec![0xfe, 0xff, 0xff, 0, 0],
        vec![0xff, 0xff, 0xff, 0xff, 0xff, 0, 0, 0, 0],
    ] {
        assert!(Cursor::new(&bytes).compact_size().is_some());
        assert_eq!(Cursor::new(&bytes).compact_size_canonical(), None);
    }
    let mut buf = Vec::new();
    write_compact_size(&mut buf, 0xFD);
    assert_eq!(buf, vec![0xFD, 0xFD, 0]);
    assert_eq!(Cursor::new(&buf).compact_size_canonical(), Some(0xFD));
    assert_eq!(Cursor::new(&[0xfd, 1]).compact_size(), None);
    assert_eq!(Cursor::new(&[]).compact_size(), None);
}

#[test]
fn cursor_reads_every_width() {
    let bytes = [1u8, 2, 3, 4, 5, 6, 7, 8, 9, 10];
    let mut c = Cursor::new(&bytes);
    assert_eq!(c.u16_be(), Some(0x0102));
    assert_eq!(c.u64_le(), Some(0x0a09_0807_0605_0403));
    assert_eq!(c.remaining(), 0);
    assert_eq!(c.u8(), None);
    let mut c = Cursor::new(&bytes);
    assert_eq!(c.u16_le(), Some(0x0201));
    assert_eq!(c.u32_le(), Some(0x0605_0403));
    assert_eq!(c.take(5), None);
    assert_eq!(c.take(4), Some(&bytes[6..]));
    assert_eq!(Cursor::new(&[0xff; 8]).i64_le(), Some(-1));
    assert_eq!(Cursor::new(&[0xfe, 0xff, 0xff, 0xff]).i32_le(), Some(-2));
}

#[test]
fn addrv2_hosts_classify_into_their_network() {
    let mut cjdns = [9u8; 16];
    cjdns[0] = 0xfc;
    let samples: [(u8, Vec<u8>, NetworkType); 6] = [
        (1, vec![9, 8, 7, 6], NetworkType::Ipv4),
        (2, vec![0x20; 16], NetworkType::Ipv6),
        (3, vec![1; 10], NetworkType::OnionV2),
        (4, vec![2; 32], NetworkType::OnionV3),
        (5, vec![3; 32], NetworkType::I2p),
        (6, cjdns.to_vec(), NetworkType::Cjdns),
    ];
    for (id, bytes, network) in samples {
        let (host, decoded) = decode_addrv2(id, &bytes).unwrap().unwrap();
        assert_eq!(decoded, network);
        assert_eq!(classify(&host), network);
    }
    assert!(decode_addrv2(7, &[1, 2]).unwrap().is_none());
    assert_eq!(
        decode_addrv2(4, &[0; 31]).unwrap_err(),
        AddrParseError::InvalidNetworkEncoding(4)
    );
    assert_eq!(encode_onion_v3(&[0; 31]), None);
    assert_eq!(encode_onion_v3(&[2; 32]).unwrap().len(), 62);
}

#[test]
fn address_errors_have_messages() {
    assert_eq!(
        AddrParseError::NonCanonicalOrTruncated.message(),
        "non-canonical or truncated address message"
    );
    assert_eq!(
        AddrParseError::TooMany(1001).message(),
        "declared address count 1001 exceeds 1000"
    );
    assert_eq!(
        AddrParseError::WrongLength {
            network_id: 1,
            length: 16
        }
        .message(),
        "wrong length 16 for BIP155 network 1"
    );
    assert_eq!(
        AddrParseError::InvalidNetworkEncoding(6).message(),
        "invalid encoding for BIP155 network 6"
    );
    assert_eq!(
        AddrParseError::TrailingBytes(3).message(),
        "3 trailing bytes after address vector"
    );
}

#[test]
fn addrv2_refuses_long_truncated_and_trailing_records() {
    let mut p = vec![1];
    p.extend_from_slice(&0u32.to_le_bytes());
    p.push(0);
    p.push(99);
    write_compact_size(&mut p, 513);
    assert_eq!(
        parse_addrv2(&p).unwrap_err(),
        AddrParseError::WrongLength {
            network_id: 99,
            length: 513
        }
    );
    let mut ok = vec![1];
    ok.extend_from_slice(&5u32.to_le_bytes());
    ok.extend_from_slice(&[9, 1, 4, 1, 2, 3, 4, 0x20, 0x8d]);
    let parsed = parse_addrv2(&ok).unwrap();
    assert_eq!(parsed.addrs[0].port, 8333);
    assert_eq!(parsed.addrs[0].services, 9);
    assert_eq!(parsed.addrs[0].timestamp, 5);
    assert_eq!(parsed.addrs[0].wire_network_id, 1);
    assert_eq!(
        parse_addrv2(&ok[..ok.len() - 1]).unwrap_err(),
        AddrParseError::NonCanonicalOrTruncated
    );
    ok.push(0);
    assert_eq!(
        parse_addrv2(&ok).unwrap_err(),
        AddrParseError::TrailingBytes(1)
    );
}

#[test]
fn damaged_address_messages_are_refused_whole() {
    let mut v2 = vec![2];
    v2.extend_from_slice(&5u32.to_le_bytes());
    v2.extend_from_slice(&[9, 1, 4, 1, 2, 3, 4, 0x20, 0x8d]);
    v2.extend_from_slice(&6u32.to_le_bytes());
    v2.extend_from_slice(&[0xfd, 0x00, 0x01, 99, 3, 7, 7, 7, 0, 1]);
    let whole = parse_addrv2(&v2).unwrap();
    assert_eq!((whole.addrs.len(), whole.unknown_entries), (1, 1));
    let mut v1 = vec![1];
    v1.extend_from_slice(&[0; 30]);
    assert_eq!(parse_addr(&v1).unwrap().addrs.len(), 1);
    for k in 0..v2.len() {
        let e = parse_addrv2(&v2[..k]).unwrap_err();
        assert_eq!(e, AddrParseError::NonCanonicalOrTruncated);
    }
    for k in 0..v1.len() {
        let e = parse_addr(&v1[..k]).unwrap_err();
        assert_eq!(e, AddrParseError::NonCanonicalOrTruncated);
    }
    for n in 1..4 {
        v2.push(0);
        v1.push(0);
        assert_eq!(parse_addrv2(&v2).unwrap_err(), AddrParseError::TrailingBytes(n));
        assert_eq!(parse_addr(&v1).unwrap_err(), AddrParseError::TrailingBytes(n));
    }
}
