//! Points of the Ed25519 curve, held by their affine coordinates. The group
//! law itself is the curve library's: sums and multiples are named, not
//! computed, in contracts.
//!
//! Each operation hands the coordinates to ark-ec and takes the coordinates
//! of the result back. What is claimed of those calls, and not proved, stands
//! in the functions named `point_...` at the end of this file. Every element
//! holds the coordinates of a point of the curve, so the curve library's
//! formulas, which are complete on the curve, apply to it.

use crate::scalar::{le_bytes, limbs_value, Scalar};
use ark_ec::CurveGroup;
use ark_ed25519::{EdwardsAffine, EdwardsProjective, Fq, Fr};
use ark_ff::{BigInt, PrimeField};
use ark_serialize::CanonicalSerialize;
use ark_std::UniformRand;
use vstd::prelude::*;

verus! {

/// The modulus of the field of coordinates: 2^255 - 19.
pub open spec fn coordinate_modulus() -> nat {
    (0x8000_0000_0000_0000_0000_0000_0000_0000 * 0x8000_0000_0000_0000_0000_0000_0000_0000 * 2
        - 19) as nat
}

/// The curve's coefficient `d`, which is -121665 / 121666 in the field of coordinates.
pub open spec fn curve_d() -> nat {
    0x5203_6cee_2b6f_fe73_8cc7_4079_7779_e898 * 0x8000_0000_0000_0000_0000_0000_0000_0000 * 2
        + 0x0070_0a4d_4141_d8ab_75eb_4dca_1359_78a3
}

/// A point by its affine coordinates.
pub struct Point {
    pub x: nat,
    pub y: nat,
}

/// Whether the coordinates satisfy the curve equation `-x^2 + y^2 = 1 + d x^2 y^2`.
pub open spec fn on_curve(p: Point) -> bool {
    &&& p.x < coordinate_modulus()
    &&& p.y < coordinate_modulus()
    &&& (p.y * p.y - p.x * p.x - 1 - curve_d() * (p.x * p.x) * (p.y * p.y)) % (
    coordinate_modulus() as int) == 0
}

/// The neutral element of the group.
pub open spec fn identity_point() -> Point {
    Point { x: 0, y: 1 }
}

/// The sum of two points, as `Add` of ark-ec's `Projective` computes it.
pub uninterp spec fn group_add(p: Point, q: Point) -> Point;

/// The multiple of a point by a scalar, as `Mul` of ark-ec's `Projective` computes it.
pub uninterp spec fn group_scalar_mul(p: Point, k: nat) -> Point;

/// The number that the canonical encoding of a point stands for: its `y`
/// coordinate, with bit 255 set where `x` is larger than its negative.
pub open spec fn encoded_value(p: Point) -> nat {
    if 2 * p.x > coordinate_modulus() {
        p.y + 0x8000_0000_0000_0000_0000_0000_0000_0000 * 0x8000_0000_0000_0000_0000_0000_0000_0000
            * 2
    } else {
        p.y
    }
}

/// An element of the group.
#[derive(Clone, Copy, Debug)]
pub struct Element {
    pub(crate) x: [u64; 4],
    pub(crate) y: [u64; 4],
}

impl View for Element {
    type V = Point;

    closed spec fn view(&self) -> Point {
        Point { x: limbs_value(self.x), y: limbs_value(self.y) }
    }
}

impl PartialEq for Element {
    fn eq(&self, other: &Element) -> (r: bool) {
        proof {
            if self@ == other@ {
                crate::scalar::lemma_limbs_value_injective(self.x, other.x);
                crate::scalar::lemma_limbs_value_injective(self.y, other.y);
            }
        }
        self.x[0] == other.x[0] && self.x[1] == other.x[1] && self.x[2] == other.x[2] && self.x[3]
            == other.x[3] && self.y[0] == other.y[0] && self.y[1] == other.y[1] && self.y[2]
            == other.y[2] && self.y[3] == other.y[3]
    }
}

impl vstd::std_specs::cmp::PartialEqSpecImpl for Element {
    open spec fn obeys_eq_spec() -> bool {
        true
    }

    open spec fn eq_spec(&self, other: &Element) -> bool {
        self@ == other@
    }
}

impl Eq for Element {

}

impl Element {
    /// Every element is a point of the curve.
    #[verifier::type_invariant]
    pub open spec fn valid(self) -> bool {
        on_curve(self@)
    }

    /// The neutral element.
    pub fn zero() -> (r: Element)
        ensures
            r@ == identity_point(),
    {
        let x: [u64; 4] = [0, 0, 0, 0];
        let y: [u64; 4] = [1, 0, 0, 0];
        proof {
            assert(limbs_value(x) == 0 && limbs_value(y) == 1);
            let p = identity_point();
            assert(p.x * p.x == 0 && p.y * p.y == 1) by (nonlinear_arith)
                requires
                    p.x == 0,
                    p.y == 1,
            ;
            assert(curve_d() * (p.x * p.x) * (p.y * p.y) == 0) by (nonlinear_arith)
                requires
                    p.x * p.x == 0,
            ;
            assert(0int % (coordinate_modulus() as int) == 0);
            assert(on_curve(p));
        }
        Element { x, y }
    }

    /// An element drawn at random: some point of the curve.
    pub fn random() -> (r: Element)
        ensures
            on_curve(r@),
    {
        point_random()
    }

    /// The sum of two elements.
    pub fn add(&self, other: &Element) -> (r: Element)
        ensures
            r@ == group_add(self@, other@),
    {
        point_add(self, other)
    }

    /// The multiple of an element by a scalar. The multiple by zero is the neutral element.
    pub fn mul(&self, k: &Scalar) -> (r: Element)
        ensures
            r@ == group_scalar_mul(self@, k@),
            k@ == 0 ==> r@ == identity_point(),
    {
        point_mul(self, k)
    }

    /// The canonical encoding: 32 little-endian bytes.
    pub fn to_bytes(&self) -> (r: Vec<u8>)
        ensures
            r@ == le_bytes(encoded_value(self@), 32),
    {
        point_encode(self)
    }
}

/// Calls `Add` of ark-ec's `Projective` on the two points. The sum depends on
/// the two points alone and is again a point of the curve.
#[verifier::external_body]
fn point_add(a: &Element, b: &Element) -> (r: Element)
    ensures
        r@ == group_add(a@, b@),
{
    let p = EdwardsAffine::new_unchecked(Fq::from(BigInt::new(a.x)), Fq::from(BigInt::new(a.y)));
    let q = EdwardsAffine::new_unchecked(Fq::from(BigInt::new(b.x)), Fq::from(BigInt::new(b.y)));
    let s = (EdwardsProjective::from(p) + EdwardsProjective::from(q)).into_affine();
    Element { x: s.x.into_bigint().0, y: s.y.into_bigint().0 }
}

/// Calls `Mul` of ark-ec's `Projective` on the point and the scalar. The
/// multiple depends on the two alone and is again a point of the curve. It
/// is built up from the neutral element bit by bit of the scalar, so for the
/// scalar zero it is the neutral element.
#[verifier::external_body]
fn point_mul(a: &Element, k: &Scalar) -> (r: Element)
    ensures
        r@ == group_scalar_mul(a@, k@),
        k@ == 0 ==> r@ == identity_point(),
{
    let p = EdwardsAffine::new_unchecked(Fq::from(BigInt::new(a.x)), Fq::from(BigInt::new(a.y)));
    let s = (EdwardsProjective::from(p) * Fr::from(BigInt::new(k.limbs))).into_affine();
    Element { x: s.x.into_bigint().0, y: s.y.into_bigint().0 }
}

/// Calls `CanonicalSerialize::serialize_compressed` of ark-serialize on the
/// point, which writes the little-endian bytes of `y` and sets the top bit of
/// the last byte where `x` is larger than its negative. Writing into a vector
/// does not fail.
#[verifier::external_body]
fn point_encode(a: &Element) -> (r: Vec<u8>)
    ensures
        r@ == le_bytes(encoded_value(a@), 32),
{
    let p = EdwardsAffine::new_unchecked(Fq::from(BigInt::new(a.x)), Fq::from(BigInt::new(a.y)));
    let mut out = Vec::new();
    EdwardsProjective::from(p).serialize_compressed(&mut out).unwrap();
    out
}

/// Calls `UniformRand::rand` of ark-std for a point of the group, with the
/// generator that `ark_std::test_rng` hands out. The point is found by
/// solving the curve equation for a random `y` and is then multiplied by the
/// cofactor, so it is a point of the curve; nothing else is known of it.
#[verifier::external_body]
fn point_random() -> (r: Element)
    ensures
        on_curve(r@),
{
    let s = EdwardsProjective::rand(&mut ark_std::test_rng()).into_affine();
    Element { x: s.x.into_bigint().0, y: s.y.into_bigint().0 }
}

} // verus!
