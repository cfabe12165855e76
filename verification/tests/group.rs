use threshold_schnorr::group::Element;
use threshold_schnorr::scalar::Scalar;

#[test]
fn the_neutral_element_is_encoded_as_one() {
    let mut expected = vec![0u8; 32];
    expected[0] = 1;
    assert_eq!(Element::zero().to_bytes(), expected);
}

#[test]
fn adding_the_neutral_element_changes_nothing() {
    let g = Element::random();
    assert_ne!(g, Element::zero());
    assert_eq!(g.add(&Element::zero()), g);
    assert_eq!(Element::zero().add(&g), g);
}

#[test]
fn multiples_by_small_scalars() {
    let g = Element::random();
    assert_eq!(g.mul(&Scalar::zero()), Element::zero());
    assert_eq!(g.mul(&Scalar::one()), g);
    let double = g.add(&g);
    assert_ne!(double, g);
    assert_eq!(g.mul(&Scalar::from_u64(2)), double);
    assert_eq!(g.mul(&Scalar::from_u64(3)), double.add(&g));
}

#[test]
fn multiplication_distributes_over_scalar_addition() {
    let g = Element::random();
    let a = Scalar::from_u64(1234567);
    let b = Scalar::zero().sub(&Scalar::from_u64(89));
    assert_eq!(g.mul(&a.add(&b)), g.mul(&a).add(&g.mul(&b)));
    assert_eq!(g.mul(&a.mul(&b)), g.mul(&a).mul(&b));
}

#[test]
fn the_order_of_the_group_annihilates() {
    let g = Element::random();
    let minus_one = Scalar::zero().sub(&Scalar::one());
    assert_eq!(g.mul(&minus_one).add(&g), Element::zero());
}

#[test]
fn encodings_have_32_bytes_and_tell_elements_apart() {
    let g = Element::random();
    let h = g.add(&g);
    assert_eq!(g.to_bytes().len(), 32);
    assert_eq!(h.to_bytes().len(), 32);
    assert_ne!(g.to_bytes(), h.to_bytes());
    assert_ne!(g.to_bytes(), Element::zero().to_bytes());
}

#[test]
fn a_point_and_its_negative_differ_in_the_sign_bit() {
    let g = Element::random();
    let minus_one = Scalar::zero().sub(&Scalar::one());
    let negative = g.mul(&minus_one);
    let mut a = g.to_bytes();
    let b = negative.to_bytes();
    assert_ne!(a, b);
    a[31] ^= 0x80;
    assert_eq!(a, b);
}
