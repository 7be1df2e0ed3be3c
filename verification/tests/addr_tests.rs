use leafcore::addr::{parse_ip_literal, parse_ipv4_literal, parse_ipv6_literal, IpAddress};

fn v4(a: u8, b: u8, c: u8, d: u8) -> u32 {
    ((a as u32) << 24) | ((b as u32) << 16) | ((c as u32) << 8) | (d as u32)
}

#[test]
fn parses_plain_ipv4() {
    assert_eq!(parse_ipv4_literal(&b"1.1.1.1".to_vec()), Some(v4(1, 1, 1, 1)));
    assert_eq!(
        parse_ipv4_literal(&b"93.184.216.34".to_vec()),
        Some(v4(93, 184, 216, 34))
    );
    assert_eq!(parse_ipv4_literal(&b"0.0.0.0".to_vec()), Some(0));
    assert_eq!(
        parse_ipv4_literal(&b"255.255.255.255".to_vec()),
        Some(u32::MAX)
    );
}

#[test]
fn rejects_bad_ipv4() {
    assert_eq!(parse_ipv4_literal(&b"256.1.1.1".to_vec()), None);
    assert_eq!(parse_ipv4_literal(&b"01.2.3.4".to_vec()), None);
    assert_eq!(parse_ipv4_literal(&b"1.2.3".to_vec()), None);
    assert_eq!(parse_ipv4_literal(&b"1.2.3.4.5".to_vec()), None);
    assert_eq!(parse_ipv4_literal(&b"1.2.3.".to_vec()), None);
    assert_eq!(parse_ipv4_literal(&b"".to_vec()), None);
    assert_eq!(parse_ipv4_literal(&b"a.b.c.d".to_vec()), None);
}

#[test]
fn parses_ipv6_loopback() {
    assert_eq!(parse_ipv6_literal(&b"::1".to_vec()), Some(1u128));
    assert_eq!(parse_ipv6_literal(&b"::".to_vec()), Some(0u128));
}

#[test]
fn parses_full_ipv6() {
    let v = parse_ipv6_literal(&b"1:2:3:4:5:6:7:8".to_vec()).unwrap();
    let expect: u128 = (1u128 << 112)
        | (2u128 << 96)
        | (3u128 << 80)
        | (4u128 << 64)
        | (5u128 << 48)
        | (6u128 << 32)
        | (7u128 << 16)
        | 8u128;
    assert_eq!(v, expect);
}

#[test]
fn parses_compressed_ipv6() {
    let v = parse_ipv6_literal(&b"fe80::1".to_vec()).unwrap();
    assert_eq!(v, (0xfe80u128 << 112) | 1);
    let v = parse_ipv6_literal(&b"1:2::7:8".to_vec()).unwrap();
    assert_eq!(v, (1u128 << 112) | (2u128 << 96) | (7u128 << 16) | 8);
    let v = parse_ipv6_literal(&b"1:2:3:4:5:6:7::".to_vec()).unwrap();
    assert_eq!(
        v,
        (1u128 << 112)
            | (2u128 << 96)
            | (3u128 << 80)
            | (4u128 << 64)
            | (5u128 << 48)
            | (6u128 << 32)
            | (7u128 << 16)
    );
}

#[test]
fn parses_v4_mapped_ipv6() {
    let v = parse_ipv6_literal(&b"::ffff:1.2.3.4".to_vec()).unwrap();
    assert_eq!(v, (0xffffu128 << 32) | ((v4(1, 2, 3, 4)) as u128));
}

#[test]
fn rejects_bad_ipv6() {
    assert_eq!(parse_ipv6_literal(&b"1:2:3".to_vec()), None);
    assert_eq!(parse_ipv6_literal(&b"1:2:3:4:5:6:7:8:9".to_vec()), None);
    assert_eq!(parse_ipv6_literal(&b"1::2::3".to_vec()), None);
    assert_eq!(parse_ipv6_literal(&b":::".to_vec()), None);
    assert_eq!(parse_ipv6_literal(&b"12345::".to_vec()), None);
    assert_eq!(parse_ipv6_literal(&b"g::1".to_vec()), None);
    assert_eq!(parse_ipv6_literal(&b"1.2.3.4".to_vec()), None);
    assert_eq!(parse_ipv6_literal(&b"".to_vec()), None);
}

#[test]
fn literal_picks_family() {
    assert_eq!(
        parse_ip_literal(&b"8.8.8.8".to_vec()),
        Some(IpAddress::V4(v4(8, 8, 8, 8)))
    );
    assert_eq!(parse_ip_literal(&b"::1".to_vec()), Some(IpAddress::V6(1)));
    assert_eq!(parse_ip_literal(&b"example.com".to_vec()), None);
}
