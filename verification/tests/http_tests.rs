use leafcore::addr::IpAddress;
use leafcore::http_inbound::{parse_proxy_target, Destination, ProxyService, SimpleProxyStream};

#[test]
fn proxy_service_records_uri() {
    let mut s = ProxyService::new();
    assert!(s.get_uri().is_empty());
    s.set_uri(b"example.com:443".to_vec());
    assert_eq!(s.get_uri(), &b"example.com:443".to_vec());
}

#[test]
fn stream_wrapper_is_transparent() {
    let wrapped = SimpleProxyStream(7u32);
    assert_eq!(wrapped.0, 7);
}

#[test]
fn parses_domain_targets() {
    match parse_proxy_target(&b"example.com:443".to_vec()) {
        Some(Destination::Domain(host, port)) => {
            assert_eq!(host, b"example.com".to_vec());
            assert_eq!(port, 443);
        }
        _ => panic!("a domain target must parse"),
    }
}

#[test]
fn parses_ip_targets() {
    match parse_proxy_target(&b"1.2.3.4:80".to_vec()) {
        Some(Destination::Ip(ip, port)) => {
            assert_eq!(ip, IpAddress::V4(0x01020304));
            assert_eq!(port, 80);
        }
        _ => panic!("an address target must parse"),
    }
}

#[test]
fn rejects_bad_targets() {
    assert!(parse_proxy_target(&b"no-port".to_vec()).is_none());
    assert!(parse_proxy_target(&b"a:b:c".to_vec()).is_none());
    assert!(parse_proxy_target(&b"host:99999".to_vec()).is_none());
    assert!(parse_proxy_target(&b"host:".to_vec()).is_none());
    assert!(parse_proxy_target(&b":80".to_vec()).is_none());
    let long = vec![b'a'; 256];
    let mut uri = long.clone();
    uri.extend_from_slice(b":80");
    assert!(parse_proxy_target(&uri).is_none());
}
