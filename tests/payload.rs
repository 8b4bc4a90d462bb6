use mempool::payload::{u128_le_bytes, Mempool};

#[test]
fn le_bytes_of_u128() {
    let mut expected = vec![0u8; 16];
    expected[0] = 0x02;
    expected[1] = 0x01;
    assert_eq!(u128_le_bytes(0x0102), expected);
    assert_eq!(u128_le_bytes(u128::MAX), vec![0xff; 16]);
    assert_eq!(u128_le_bytes(0x0102).to_vec(), 0x0102u128.to_le_bytes().to_vec());
}

#[test]
fn random_payload_digest_has_digest_length() {
    let m = Mempool;
    let a = m.get_payload();
    let b = m.get_payload();
    assert_eq!(a.len(), 32);
    assert_eq!(b.len(), 32);
    assert_ne!(a, b);
}

#[test]
fn digest_from_concatenates_le_bytes() {
    let a: u128 = 0x0102_0304;
    let b: u128 = u128::MAX - 1;
    let mut expected = a.to_le_bytes().to_vec();
    expected.extend_from_slice(&b.to_le_bytes());
    assert_eq!(mempool::payload::digest_from(a, b), expected);
}
