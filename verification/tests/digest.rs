use nimble::md5_digest::{digest_bytes, FileDigest, InvalidDigest, Md5Digest};

#[test]
fn digest_from_hex_round_trip() {
    let text = "5eb63bbbe01eeed093cb22bb8f5acdc3";
    let d = Md5Digest::new(text).unwrap();
    assert_eq!(d.to_hex(), text);
    assert_eq!(Md5Digest::new(&d.to_hex()).unwrap(), d);
    assert_eq!(d.value(), 0x5eb63bbbe01eeed093cb22bb8f5acdc3u128);
}

#[test]
fn digest_parsing_ignores_case() {
    let lower = Md5Digest::new("d41d8cd98f00b204e9800998ecf8427e").unwrap();
    let upper = Md5Digest::new("D41D8CD98F00B204E9800998ECF8427E").unwrap();
    assert_eq!(lower, upper);
    assert_eq!(upper.to_string(), "d41d8cd98f00b204e9800998ecf8427e");
}

#[test]
fn digest_rejects_wrong_length() {
    assert_eq!(Md5Digest::new(""), Err(InvalidDigest::Length));
    assert_eq!(Md5Digest::new("abc"), Err(InvalidDigest::Length));
    assert_eq!(
        Md5Digest::new("d41d8cd98f00b204e9800998ecf8427e0"),
        Err(InvalidDigest::Length)
    );
}

#[test]
fn digest_rejects_non_hex() {
    assert_eq!(
        Md5Digest::new("g41d8cd98f00b204e9800998ecf8427e"),
        Err(InvalidDigest::NonHex)
    );
    assert_eq!(
        Md5Digest::new("d41d8cd98f00b204e9800998ecf8427 "),
        Err(InvalidDigest::NonHex)
    );
}

#[test]
fn digest_from_bytes_is_big_endian() {
    let mut bytes = [0u8; 16];
    bytes[0] = 0x12;
    bytes[15] = 0xef;
    let d = Md5Digest::from_bytes(&bytes);
    assert_eq!(d.to_hex(), "120000000000000000000000000000ef");
    assert_eq!(d.value(), 0x120000000000000000000000000000efu128);
}

#[test]
fn digest_zero_is_invalid_marker() {
    let zero = Md5Digest::invalid();
    assert!(zero.is_zero());
    assert_eq!(zero, Md5Digest::default());
    assert_eq!(zero.to_hex(), "00000000000000000000000000000000");
    assert!(!digest_bytes(b"").is_zero());
}

#[test]
fn digest_orders_by_bytes() {
    let a = Md5Digest::new("00000000000000000000000000000001").unwrap();
    let b = Md5Digest::new("10000000000000000000000000000000").unwrap();
    assert!(a.precedes(&b));
    assert!(!b.precedes(&a));
    assert!(!a.precedes(&a));
    assert!(a < b);
    assert!(a.same_as(&a));
    assert!(!a.same_as(&b));
}

#[test]
fn digest_of_known_contents() {
    assert_eq!(digest_bytes(b"").to_hex(), "d41d8cd98f00b204e9800998ecf8427e");
    assert_eq!(digest_bytes(b"hi").to_hex(), "49f68a5c8493ec2c0bf489821c21fc3b");
    assert_eq!(
        digest_bytes(b"hello world").to_hex(),
        "5eb63bbbe01eeed093cb22bb8f5acdc3"
    );
}

#[test]
fn file_digest_of_empty_file() {
    let f = FileDigest::new();
    assert_eq!(f.length(), 0);
    let (d, n) = f.finish();
    assert_eq!(n, 0);
    assert_eq!(d.to_hex(), "d41d8cd98f00b204e9800998ecf8427e");
}

#[test]
fn file_digest_streams_chunks() {
    let mut f = FileDigest::new();
    assert!(f.update(b"hello"));
    assert!(f.update(b" "));
    assert!(f.update(b"world"));
    assert_eq!(f.length(), 11);
    let (d, n) = f.finish();
    assert_eq!(n, 11);
    assert_eq!(d, digest_bytes(b"hello world"));
}
