use fibonacci_circuit::field::{sum_if_known, Scalar};
use halo2curves::bn256::Fr;

/// The order of the field, least significant byte first.
const MODULUS: [u8; 32] = [
    0x01, 0x00, 0x00, 0xf0, 0x93, 0xf5, 0xe1, 0x43, 0x91, 0x70, 0xb9, 0x79, 0x48, 0xe8, 0x33, 0x28,
    0x5d, 0x58, 0x81, 0x81, 0xb6, 0x45, 0x50, 0xb8, 0x29, 0xa0, 0x31, 0xe1, 0x72, 0x4e, 0x64, 0x30,
];

fn minus_one() -> Scalar {
    let mut bytes = MODULUS;
    bytes[0] = 0;
    Scalar::from_bytes(bytes).unwrap()
}

#[test]
fn small_numbers_are_their_own_encoding() {
    let mut bytes = [0u8; 32];
    assert_eq!(Scalar::from_u64(0).to_bytes(), bytes);
    bytes[0] = 55;
    assert_eq!(Scalar::from_u64(55).to_bytes(), bytes);
    bytes[..8].copy_from_slice(&[0xff; 8]);
    assert_eq!(Scalar::from_u64(u64::MAX).to_bytes(), bytes);
}

#[test]
fn only_canonical_encodings_are_read() {
    assert_eq!(Scalar::from_bytes(MODULUS), None);
    assert_eq!(Scalar::from_bytes([0xff; 32]), None);
    let mut above = MODULUS;
    above[0] = 2;
    assert_eq!(Scalar::from_bytes(above), None);
    assert_eq!(minus_one().to_bytes()[31], 0x30);
    assert_eq!(Scalar::from_bytes([0; 32]), Some(Scalar::from_u64(0)));
}

#[test]
fn sums_wrap_at_the_order() {
    let sum = Scalar::from_u64(21).plus(&Scalar::from_u64(34));
    assert_eq!(sum, Scalar::from_u64(55));
    assert_eq!(minus_one().plus(&Scalar::from_u64(1)), Scalar::from_u64(0));
    assert_eq!(minus_one().plus(&Scalar::from_u64(3)), Scalar::from_u64(2));
    let wide = Scalar::from_u64(u64::MAX).plus(&Scalar::from_u64(1));
    let mut bytes = [0u8; 32];
    bytes[8] = 1;
    assert_eq!(wide.to_bytes(), bytes);
}

#[test]
fn elements_agree_with_the_field_crate() {
    let left = Fr::from(0x1234_5678_9abc_def0) * Fr::from(0xfedc_ba98_7654_3210);
    let right = -left * left;
    let to_scalar = |x: Fr| Scalar::from_bytes(x.to_bytes()).unwrap();
    assert_eq!(to_scalar(left).plus(&to_scalar(right)), to_scalar(left + right));
    assert_eq!(to_scalar(left).plus(&to_scalar(-left)), Scalar::from_u64(0));
    assert_eq!(to_scalar(Fr::from(77)), Scalar::from_u64(77));
}

#[test]
fn equal_numbers_are_equal_scalars() {
    let by_sum = Scalar::from_u64(1).plus(&Scalar::from_u64(1));
    assert_eq!(by_sum, Scalar::from_u64(2));
    assert_eq!(Scalar::from_bytes(by_sum.to_bytes()), Some(by_sum));
    assert_ne!(by_sum, Scalar::from_u64(3));
}

#[test]
fn unknown_values_propagate() {
    let two = Some(Scalar::from_u64(2));
    let three = Some(Scalar::from_u64(3));
    assert_eq!(sum_if_known(two, three), Some(Scalar::from_u64(5)));
    assert_eq!(sum_if_known(two, None), None);
    assert_eq!(sum_if_known(None, three), None);
    assert_eq!(sum_if_known(None, None), None);
}
