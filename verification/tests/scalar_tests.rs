use issuer_hiding::scalar::Scalar;

#[test]
fn small_values_encode_little_endian() {
    let s = Scalar::from_u64(258);
    let bytes = s.to_bytes();
    assert_eq!(bytes[0], 2);
    assert_eq!(bytes[1], 1);
    assert!(bytes[2..].iter().all(|b| *b == 0));
    assert!(!s.is_zero());
    assert!(Scalar::from_u64(0).is_zero());
}
