use leafcore::bytes::{bytes_eq, dec_octet, dec_u16, split_bytes, subvec};

#[test]
fn splitting_keeps_empty_pieces() {
    let parts = split_bytes(&b"a::b".to_vec(), b':');
    assert_eq!(parts, vec![b"a".to_vec(), b"".to_vec(), b"b".to_vec()]);
    let parts = split_bytes(&b"".to_vec(), b':');
    assert_eq!(parts, vec![b"".to_vec()]);
    let parts = split_bytes(&b"x:".to_vec(), b':');
    assert_eq!(parts, vec![b"x".to_vec(), b"".to_vec()]);
    let parts = split_bytes(&b"one,two,three".to_vec(), b',');
    assert_eq!(
        parts,
        vec![b"one".to_vec(), b"two".to_vec(), b"three".to_vec()]
    );
}

#[test]
fn byte_equality() {
    assert!(bytes_eq(&b"abc".to_vec(), &b"abc".to_vec()));
    assert!(!bytes_eq(&b"abc".to_vec(), &b"abd".to_vec()));
    assert!(!bytes_eq(&b"abc".to_vec(), &b"ab".to_vec()));
    assert!(bytes_eq(&Vec::new(), &Vec::new()));
}

#[test]
fn strict_octets() {
    assert_eq!(dec_octet(&b"0".to_vec()), Some(0));
    assert_eq!(dec_octet(&b"255".to_vec()), Some(255));
    assert_eq!(dec_octet(&b"256".to_vec()), None);
    assert_eq!(dec_octet(&b"00".to_vec()), None);
    assert_eq!(dec_octet(&b"07".to_vec()), None);
    assert_eq!(dec_octet(&b"1234".to_vec()), None);
    assert_eq!(dec_octet(&b"".to_vec()), None);
    assert_eq!(dec_octet(&b"2x".to_vec()), None);
}

#[test]
fn decimal_ports() {
    assert_eq!(dec_u16(&b"80".to_vec()), Some(80));
    assert_eq!(dec_u16(&b"0080".to_vec()), Some(80));
    assert_eq!(dec_u16(&b"65535".to_vec()), Some(65535));
    assert_eq!(dec_u16(&b"65536".to_vec()), None);
    assert_eq!(dec_u16(&b"".to_vec()), None);
    assert_eq!(dec_u16(&b"-1".to_vec()), None);
}

#[test]
fn subvec_copies_ranges() {
    let v = b"abcdef".to_vec();
    assert_eq!(subvec(&v, 1, 4), b"bcd".to_vec());
    assert_eq!(subvec(&v, 0, 0), b"".to_vec());
    assert_eq!(subvec(&v, 6, 6), b"".to_vec());
}
