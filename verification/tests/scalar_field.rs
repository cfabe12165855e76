use threshold_schnorr::scalar::Scalar;

fn order_bytes() -> Vec<u8> {
    vec![
        0xed, 0xd3, 0xf5, 0x5c, 0x1a, 0x63, 0x12, 0x58, 0xd6, 0x9c, 0xf7, 0xa2, 0xde, 0xf9, 0xde,
        0x14, 0x00, 0x00, 0x00, 0x00, 0x00, 0x00, 0x00, 0x00, 0x00, 0x00, 0x00, 0x00, 0x00, 0x00,
        0x00, 0x10,
    ]
}

#[test]
fn zero_and_one_are_the_identities() {
    let x = Scalar::from_u64(77);
    assert_eq!(x.add(&Scalar::zero()), x);
    assert_eq!(x.mul(&Scalar::one()), x);
    assert_eq!(x.mul(&Scalar::zero()), Scalar::zero());
    assert!(Scalar::zero().is_zero());
    assert!(!Scalar::one().is_zero());
}

#[test]
fn addition_of_small_numbers() {
    assert_eq!(Scalar::from_u64(2).add(&Scalar::from_u64(3)), Scalar::from_u64(5));
    let max = Scalar::from_u64(u64::MAX);
    let sum = max.add(&Scalar::from_u64(1));
    let mut expected = vec![0u8; 32];
    expected[8] = 1;
    assert_eq!(sum.to_bytes(), expected);
}

#[test]
fn subtraction_wraps_below_zero() {
    assert_eq!(Scalar::from_u64(5).sub(&Scalar::from_u64(3)), Scalar::from_u64(2));
    let below = Scalar::from_u64(3).sub(&Scalar::from_u64(5));
    let mut expected = order_bytes();
    expected[0] = 0xeb;
    assert_eq!(below.to_bytes(), expected);
    assert_eq!(below.add(&Scalar::from_u64(5)), Scalar::from_u64(3));
}

#[test]
fn multiplication_of_small_numbers() {
    assert_eq!(Scalar::from_u64(6).mul(&Scalar::from_u64(7)), Scalar::from_u64(42));
    let big = Scalar::from_u64(1 << 63);
    let product = big.mul(&Scalar::from_u64(4));
    let mut expected = vec![0u8; 32];
    expected[8] = 2;
    assert_eq!(product.to_bytes(), expected);
}

#[test]
fn power_is_repeated_multiplication() {
    assert_eq!(Scalar::from_u64(2).pow(10), Scalar::from_u64(1024));
    assert_eq!(Scalar::from_u64(3).pow(0), Scalar::one());
    assert_eq!(Scalar::from_u64(3).pow(1), Scalar::from_u64(3));
    assert_eq!(Scalar::zero().pow(0), Scalar::one());
    assert_eq!(Scalar::zero().pow(5), Scalar::zero());
}

#[test]
fn inverse_multiplies_to_one() {
    let x = Scalar::from_u64(123456789);
    let inverse = x.inverse().unwrap();
    assert_ne!(inverse, x);
    assert_eq!(x.mul(&inverse), Scalar::one());
    assert_eq!(Scalar::one().inverse(), Some(Scalar::one()));
    let half = Scalar::from_u64(2).inverse().unwrap();
    assert_eq!(half.add(&half), Scalar::one());
}

#[test]
fn zero_has_no_inverse() {
    assert_eq!(Scalar::zero().inverse(), None);
}

#[test]
fn encoding_is_little_endian() {
    let mut expected = vec![0u8; 32];
    expected[0] = 2;
    expected[1] = 1;
    assert_eq!(Scalar::from_u64(258).to_bytes(), expected);
    assert_eq!(Scalar::zero().to_bytes(), vec![0u8; 32]);
}

#[test]
fn bytes_are_read_little_endian() {
    assert_eq!(Scalar::from_le_bytes_mod_order(&[2, 1]), Scalar::from_u64(258));
    assert_eq!(Scalar::from_le_bytes_mod_order(&[]), Scalar::zero());
    let x = Scalar::from_u64(0x0102030405060708);
    assert_eq!(Scalar::from_le_bytes_mod_order(&x.to_bytes()), x);
}

#[test]
fn bytes_are_reduced_by_the_order() {
    assert_eq!(Scalar::from_le_bytes_mod_order(&order_bytes()), Scalar::zero());
    let mut above = order_bytes();
    above[0] = 0xee;
    assert_eq!(Scalar::from_le_bytes_mod_order(&above), Scalar::one());
    let mut long = vec![0u8; 64];
    long[32] = 1;
    // the bytes stand for 2^256: compare with the same number built by multiplication
    let two_to_the_64 = Scalar::from_u64(u64::MAX).add(&Scalar::one());
    let expected = two_to_the_64.pow(4);
    assert_eq!(Scalar::from_le_bytes_mod_order(&long), expected);
}

#[test]
fn a_sample_is_read_from_the_first_32_bytes_without_the_top_bits() {
    assert_eq!(Scalar::from_random_bytes(&[]), Some(Scalar::zero()));
    assert_eq!(Scalar::from_random_bytes(&[2, 1]), Some(Scalar::from_u64(258)));
    // the three top bits of the last byte do not count
    let mut bytes = vec![0u8; 32];
    bytes[0] = 9;
    bytes[31] = 0xe0;
    assert_eq!(Scalar::from_random_bytes(&bytes), Some(Scalar::from_u64(9)));
    // nor do the bytes after the first 32
    let mut long = vec![0xffu8; 64];
    for i in 0..32 {
        long[i] = 0;
    }
    long[1] = 1;
    assert_eq!(Scalar::from_random_bytes(&long), Some(Scalar::from_u64(256)));
}

#[test]
fn a_sample_at_or_above_the_order_is_refused() {
    assert_eq!(Scalar::from_random_bytes(&order_bytes()), None);
    assert_eq!(Scalar::from_random_bytes(&[0xffu8; 32]), None);
    let mut below = order_bytes();
    below[0] = 0xec;
    assert_eq!(
        Scalar::from_random_bytes(&below),
        Some(Scalar::zero().sub(&Scalar::one()))
    );
    // bit 252 alone is the order's own top bit: 2^252 is below the order
    let mut top = vec![0u8; 32];
    top[31] = 0x10;
    assert_eq!(Scalar::from_random_bytes(&top), Some(Scalar::from_le_bytes_mod_order(&top)));
    // with the three bits above it set as well, it is the same number
    top[31] = 0xf0;
    assert_eq!(Scalar::from_random_bytes(&top).map(|x| x.to_bytes()[31]), Some(0x10));
}

#[test]
fn equality_is_by_value() {
    assert_eq!(Scalar::from_u64(9), Scalar::from_u64(4).add(&Scalar::from_u64(5)));
    assert_ne!(Scalar::from_u64(9), Scalar::from_u64(10));
}
