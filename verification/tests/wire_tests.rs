use leafcore::addr::IpAddress;
use leafcore::wire::{check_hostname, new_query, parse_response, AnswerData, RTYPE_A, RTYPE_AAAA};

fn question(host: &[u8], qtype: u16) -> Vec<u8> {
    let mut q = Vec::new();
    for label in host.split(|b| *b == b'.') {
        q.push(label.len() as u8);
        q.extend_from_slice(label);
    }
    q.push(0);
    q.extend_from_slice(&qtype.to_be_bytes());
    q.extend_from_slice(&[0, 1]);
    q
}

/// A response with one A or AAAA answer whose name is a compression pointer
/// to the question.
fn response(host: &[u8], qtype: u16, rcode: u8, ttl: u32, rdata: &[u8]) -> Vec<u8> {
    let mut r = Vec::new();
    r.extend_from_slice(&[0x12, 0x34, 0x81, 0x80 | rcode, 0, 1, 0, 1, 0, 0, 0, 0]);
    r.extend_from_slice(&question(host, qtype));
    r.extend_from_slice(&[0xc0, 0x0c]);
    r.extend_from_slice(&qtype.to_be_bytes());
    r.extend_from_slice(&[0, 1]);
    r.extend_from_slice(&ttl.to_be_bytes());
    r.extend_from_slice(&(rdata.len() as u16).to_be_bytes());
    r.extend_from_slice(rdata);
    r
}

#[test]
fn encodes_a_query() {
    let q = new_query(0x1234, &b"example.com".to_vec(), RTYPE_A);
    let mut expect = vec![0x12u8, 0x34, 0x01, 0x00, 0x00, 0x01, 0, 0, 0, 0, 0, 0];
    expect.extend_from_slice(&question(b"example.com", RTYPE_A));
    assert_eq!(q, expect);
}

#[test]
fn hostname_grammar() {
    assert!(check_hostname(&b"example.com".to_vec()));
    assert!(check_hostname(&b"a".to_vec()));
    assert!(!check_hostname(&b"".to_vec()));
    assert!(!check_hostname(&b"example..com".to_vec()));
    assert!(!check_hostname(&b"example.com.".to_vec()));
    let long_label = vec![b'a'; 64];
    assert!(!check_hostname(&long_label));
    let ok_label = vec![b'a'; 63];
    assert!(check_hostname(&ok_label));
    let too_long = vec![b'a'; 254];
    assert!(!check_hostname(&too_long));
}

#[test]
fn parses_a_answer() {
    let buf = response(b"example.com", RTYPE_A, 0, 60, &[93, 184, 216, 34]);
    let resp = parse_response(&buf).unwrap();
    assert_eq!(resp.id, 0x1234);
    assert_eq!(resp.rcode, 0);
    assert_eq!(resp.answers.len(), 1);
    assert_eq!(resp.answers[0].rtype, RTYPE_A);
    assert_eq!(resp.answers[0].ttl, 60);
    let expect = ((93u32) << 24) | ((184u32) << 16) | ((216u32) << 8) | 34;
    assert_eq!(resp.answers[0].data, AnswerData::Ip(IpAddress::V4(expect)));
}

#[test]
fn parses_aaaa_answer() {
    let mut rdata = [0u8; 16];
    rdata[15] = 1;
    let buf = response(b"example.com", RTYPE_AAAA, 0, 300, &rdata);
    let resp = parse_response(&buf).unwrap();
    assert_eq!(resp.answers[0].rtype, RTYPE_AAAA);
    assert_eq!(resp.answers[0].data, AnswerData::Ip(IpAddress::V6(1)));
}

#[test]
fn keeps_rcode() {
    let buf = response(b"example.com", RTYPE_A, 3, 60, &[1, 2, 3, 4]);
    let resp = parse_response(&buf).unwrap();
    assert_eq!(resp.rcode, 3);
}

#[test]
fn other_record_types_carry_no_address() {
    let buf = response(b"example.com", 16, 0, 60, &[3, b'h', b'e', b'y']);
    let resp = parse_response(&buf).unwrap();
    assert_eq!(resp.answers[0].data, AnswerData::Other);
}

#[test]
fn rejects_malformed_buffers() {
    assert!(parse_response(&vec![0u8; 5]).is_none());
    let mut buf = response(b"example.com", RTYPE_A, 0, 60, &[1, 2, 3, 4]);
    buf.truncate(buf.len() - 1);
    assert!(parse_response(&buf).is_none());
    // an A record whose data is not four bytes is malformed
    let bad = response(b"example.com", RTYPE_A, 0, 60, &[1, 2, 3]);
    assert!(parse_response(&bad).is_none());
    // a label length in the reserved range is malformed
    let mut bad2 = response(b"example.com", RTYPE_A, 0, 60, &[1, 2, 3, 4]);
    bad2[12] = 70;
    assert!(parse_response(&bad2).is_none());
}
