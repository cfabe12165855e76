//! Elements of the scalar field of the Ed25519 group, held as four 64-bit
//! limbs and modelled as natural numbers below the group order.
//!
//! The arithmetic is that of ark-ff: each operation hands the limbs to the
//! field type of the curve library and takes the limbs of the result back.
//! What is claimed of those calls, and not proved, stands in the functions
//! named `field_...`, in `scalars_from_seed` and in `random_scalars` at the
//! end of this file. Every
//! scalar holds limbs of a number below the modulus, so the conversion into
//! the field type, which refuses other numbers, succeeds.

use ark_ed25519::Fr;
use ark_ff::{BigInt, Field, PrimeField};
use ark_serialize::CanonicalSerialize;
use ark_std::rand::distributions::Standard;
use ark_std::rand::rngs::StdRng;
use ark_std::rand::{Rng, SeedableRng};
use vstd::arithmetic::div_mod::{lemma_mul_mod_noop_general, lemma_small_mod};
use vstd::arithmetic::mul::lemma_mul_is_associative;
use vstd::prelude::*;

verus! {

/// The order of the prime-order subgroup, which is the modulus of the scalar field:
/// 2^252 + 27742317777372353535851937790883648493.
pub open spec fn order() -> nat {
    0x4000_0000_0000_0000_0000_0000_0000_0000 * 0x4000_0000_0000_0000_0000_0000_0000_0000
        + 27742317777372353535851937790883648493
}

/// Addition in the scalar field.
pub open spec fn add_mod(a: nat, b: nat) -> nat {
    (a + b) % order()
}

/// Subtraction in the scalar field.
pub open spec fn sub_mod(a: nat, b: nat) -> nat {
    ((a - b) % (order() as int)) as nat
}

/// Multiplication in the scalar field.
pub open spec fn mul_mod(a: nat, b: nat) -> nat {
    (a * b) % order()
}

/// The sum of a list of scalars.
pub open spec fn sum_mod(values: Seq<nat>) -> nat
    decreases values.len(),
{
    if values.len() == 0 {
        0
    } else {
        add_mod(sum_mod(values.drop_last()), values.last())
    }
}

/// The power of a scalar by a natural number, in the scalar field.
pub open spec fn pow_mod(a: nat, e: nat) -> nat
    decreases e,
{
    if e == 0 {
        1
    } else {
        mul_mod(pow_mod(a, (e - 1) as nat), a)
    }
}

/// Whether `b` is the multiplicative inverse of `a` in the scalar field.
pub open spec fn is_inverse(a: nat, b: nat) -> bool {
    b < order() && mul_mod(a, b) == 1
}

/// The multiplicative inverse of `a` in the scalar field, where it has one.
pub open spec fn inverse_of(a: nat) -> nat {
    choose|b: nat| is_inverse(a, b)
}

/// Whether `a` has a multiplicative inverse in the scalar field.
pub open spec fn is_unit(a: nat) -> bool {
    is_inverse(a, inverse_of(a))
}

/// The number that a little-endian byte string stands for.
pub open spec fn le_value(bytes: Seq<u8>) -> nat
    decreases bytes.len(),
{
    if bytes.len() == 0 {
        0
    } else {
        (bytes[0] as nat) + 256 * le_value(bytes.drop_first())
    }
}

/// The scalar that bytes meant as a random sample stand for: the number of
/// the first 32 bytes, little-endian, without its three top bits (those from
/// 2^253 on), where that number is below the group order, and none otherwise.
pub open spec fn scalar_from_random_bytes(bytes: Seq<u8>) -> Option<nat> {
    let head = if bytes.len() > 32 {
        bytes.take(32)
    } else {
        bytes
    };
    let value = le_value(head) % (0x4000_0000_0000_0000_0000_0000_0000_0000
        * 0x8000_0000_0000_0000_0000_0000_0000_0000);
    if value < order() {
        Some(value)
    } else {
        None
    }
}

/// The scalars that the seeded generator of ark-std's `rand` hands out first
/// for a seed of 32 bytes.
pub uninterp spec fn seeded_scalars(seed: Seq<u8>, count: nat) -> Seq<nat>;

/// The values of a list of scalars.
pub open spec fn scalar_values(xs: Seq<Scalar>) -> Seq<nat> {
    xs.map_values(|x: Scalar| x@)
}

/// The little-endian byte string of a given length that stands for a number
/// (for its low bytes, where the number does not fit).
pub open spec fn le_bytes(value: nat, len: nat) -> Seq<u8>
    decreases len,
{
    if len == 0 {
        Seq::empty()
    } else {
        seq![(value % 256) as u8] + le_bytes(value / 256, (len - 1) as nat)
    }
}

/// The number that four little-endian 64-bit limbs stand for.
pub open spec fn limbs_value(limbs: [u64; 4]) -> nat {
    (limbs[0] as nat) + 0x1_0000_0000_0000_0000 * ((limbs[1] as nat) + 0x1_0000_0000_0000_0000 * (
        (limbs[2] as nat) + 0x1_0000_0000_0000_0000 * (limbs[3] as nat)))
}

/// Limbs are determined by the number they stand for.
pub proof fn lemma_limbs_value_injective(a: [u64; 4], b: [u64; 4])
    requires
        limbs_value(a) == limbs_value(b),
    ensures
        a[0] == b[0],
        a[1] == b[1],
        a[2] == b[2],
        a[3] == b[3],
{
    let base: int = 0x1_0000_0000_0000_0000;
    let ta: int = a[1] as int + base * (a[2] as int + base * (a[3] as int));
    let tb: int = b[1] as int + base * (b[2] as int + base * (b[3] as int));
    assert(a[0] as int + base * ta == b[0] as int + base * tb);
    assert(ta == tb && a[0] == b[0]) by {
        if ta < tb {
            assert(base * tb >= base * ta + base) by (nonlinear_arith)
                requires
                    ta < tb,
                    base > 0,
            ;
        } else if tb < ta {
            assert(base * ta >= base * tb + base) by (nonlinear_arith)
                requires
                    tb < ta,
                    base > 0,
            ;
        }
    }
    let ua: int = a[2] as int + base * (a[3] as int);
    let ub: int = b[2] as int + base * (b[3] as int);
    assert(ua == ub && a[1] == b[1]) by {
        if ua < ub {
            assert(base * ub >= base * ua + base) by (nonlinear_arith)
                requires
                    ua < ub,
                    base > 0,
            ;
        } else if ub < ua {
            assert(base * ua >= base * ub + base) by (nonlinear_arith)
                requires
                    ub < ua,
                    base > 0,
            ;
        }
    }
    let va: int = a[3] as int;
    let vb: int = b[3] as int;
    assert(va == vb && a[2] == b[2]) by {
        if va < vb {
            assert(base * vb >= base * va + base) by (nonlinear_arith)
                requires
                    va < vb,
                    base > 0,
            ;
        } else if vb < va {
            assert(base * va >= base * vb + base) by (nonlinear_arith)
                requires
                    vb < va,
                    base > 0,
            ;
        }
    }
}

/// A field element has at most one multiplicative inverse.
pub proof fn lemma_inverse_unique(a: nat, b: nat, c: nat)
    requires
        is_inverse(a, b),
        is_inverse(a, c),
    ensures
        b == c,
{
    let m = order() as int;
    let (a, b, c) = (a as int, b as int, c as int);
    lemma_small_mod(b as nat, m as nat);
    lemma_small_mod(c as nat, m as nat);
    lemma_small_mod(1, m as nat);
    // b = b * (a * c) = (b * a) * c = c, all modulo the order
    lemma_mul_mod_noop_general(b, a * c, m);
    assert((b * 1) % m == (b * (a * c)) % m);
    lemma_mul_is_associative(b, a, c);
    lemma_mul_mod_noop_general(b * a, c, m);
    assert(b * a == a * b) by (nonlinear_arith);
    assert(((b * a) * c) % m == (1 * c) % m);
}

/// An element of the scalar field.
#[derive(Clone, Copy, Debug)]
pub struct Scalar {
    pub(crate) limbs: [u64; 4],
}

impl View for Scalar {
    type V = nat;

    closed spec fn view(&self) -> nat {
        limbs_value(self.limbs)
    }
}

impl PartialEq for Scalar {
    fn eq(&self, other: &Scalar) -> (r: bool) {
        proof {
            if self@ == other@ {
                lemma_limbs_value_injective(self.limbs, other.limbs);
            }
        }
        self.limbs[0] == other.limbs[0] && self.limbs[1] == other.limbs[1] && self.limbs[2]
            == other.limbs[2] && self.limbs[3] == other.limbs[3]
    }
}

impl vstd::std_specs::cmp::PartialEqSpecImpl for Scalar {
    open spec fn obeys_eq_spec() -> bool {
        true
    }

    open spec fn eq_spec(&self, other: &Scalar) -> bool {
        self@ == other@
    }
}

impl Eq for Scalar {

}

impl Scalar {
    /// Every scalar is below the group order.
    #[verifier::type_invariant]
    pub open spec fn reduced(self) -> bool {
        self@ < order()
    }

    /// The additive identity.
    pub fn zero() -> (r: Scalar)
        ensures
            r@ == 0,
    {
        Scalar { limbs: [0, 0, 0, 0] }
    }

    /// The multiplicative identity.
    pub fn one() -> (r: Scalar)
        ensures
            r@ == 1,
    {
        Scalar { limbs: [1, 0, 0, 0] }
    }

    /// The scalar that stands for a 64-bit number.
    pub fn from_u64(value: u64) -> (r: Scalar)
        ensures
            r@ == value,
    {
        Scalar { limbs: [value, 0, 0, 0] }
    }

    /// The scalar that a little-endian byte string of any length stands for,
    /// reduced by the group order.
    pub fn from_le_bytes_mod_order(bytes: &[u8]) -> (r: Scalar)
        ensures
            r@ == le_value(bytes@) % order(),
    {
        field_from_le_bytes(bytes)
    }

    /// The scalar that bytes meant as a random sample stand for, where they
    /// stand for one: see `scalar_from_random_bytes`.
    pub fn from_random_bytes(bytes: &[u8]) -> (r: Option<Scalar>)
        ensures
            r.is_some() == scalar_from_random_bytes(bytes@).is_some(),
            r matches Some(x) ==> scalar_from_random_bytes(bytes@) == Some(x@),
    {
        field_from_random_bytes(bytes)
    }

    /// The canonical encoding: the 32 little-endian bytes of the scalar's value.
    pub fn to_bytes(&self) -> (r: Vec<u8>)
        ensures
            r@ == le_bytes(self@, 32),
    {
        field_encode(self)
    }

    /// Whether the scalar is the additive identity.
    pub fn is_zero(&self) -> (r: bool)
        ensures
            r == (self@ == 0),
    {
        self.limbs[0] == 0 && self.limbs[1] == 0 && self.limbs[2] == 0 && self.limbs[3] == 0
    }

    /// The sum of two scalars.
    pub fn add(&self, other: &Scalar) -> (r: Scalar)
        ensures
            r@ == add_mod(self@, other@),
    {
        field_add(self, other)
    }

    /// The difference of two scalars.
    pub fn sub(&self, other: &Scalar) -> (r: Scalar)
        ensures
            r@ == sub_mod(self@, other@),
    {
        field_sub(self, other)
    }

    /// The product of two scalars.
    pub fn mul(&self, other: &Scalar) -> (r: Scalar)
        ensures
            r@ == mul_mod(self@, other@),
    {
        field_mul(self, other)
    }

    /// The power of a scalar by a 64-bit exponent.
    pub fn pow(&self, exponent: u64) -> (r: Scalar)
        ensures
            r@ == pow_mod(self@, exponent as nat),
    {
        field_pow(self, exponent)
    }

    /// The multiplicative inverse, which every scalar but zero has.
    pub fn inverse(&self) -> (r: Option<Scalar>)
        ensures
            r.is_none() <==> self@ == 0,
            r matches Some(x) ==> x@ == inverse_of(self@) && is_unit(self@),
    {
        let r = field_inverse(self);
        proof {
            if let Some(x) = r {
                use_type_invariant(&x);
                assert(is_inverse(self@, x@));
                lemma_inverse_unique(self@, x@, inverse_of(self@));
            }
        }
        r
    }
}

/// Calls `Fp::add` of ark-ff on the two field elements that the limbs stand
/// for: the result is their sum reduced by the field's modulus.
#[verifier::external_body]
fn field_add(a: &Scalar, b: &Scalar) -> (r: Scalar)
    ensures
        r@ == add_mod(a@, b@),
{
    let x = Fr::from(BigInt::new(a.limbs)) + Fr::from(BigInt::new(b.limbs));
    Scalar { limbs: x.into_bigint().0 }
}

/// Calls `Fp::sub` of ark-ff: the result is the difference of the two field
/// elements, reduced into the range below the field's modulus.
#[verifier::external_body]
fn field_sub(a: &Scalar, b: &Scalar) -> (r: Scalar)
    ensures
        r@ == sub_mod(a@, b@),
{
    let x = Fr::from(BigInt::new(a.limbs)) - Fr::from(BigInt::new(b.limbs));
    Scalar { limbs: x.into_bigint().0 }
}

/// Calls `Fp::mul` of ark-ff: the result is the product of the two field
/// elements reduced by the field's modulus.
#[verifier::external_body]
fn field_mul(a: &Scalar, b: &Scalar) -> (r: Scalar)
    ensures
        r@ == mul_mod(a@, b@),
{
    let x = Fr::from(BigInt::new(a.limbs)) * Fr::from(BigInt::new(b.limbs));
    Scalar { limbs: x.into_bigint().0 }
}

/// Calls `Field::pow` of ark-ff with an exponent of one limb: the result is
/// the element multiplied by itself as often as the exponent says, and one
/// for the exponent zero.
#[verifier::external_body]
fn field_pow(a: &Scalar, exponent: u64) -> (r: Scalar)
    ensures
        r@ == pow_mod(a@, exponent as nat),
{
    Scalar { limbs: Fr::from(BigInt::new(a.limbs)).pow([exponent]).into_bigint().0 }
}

/// Calls `Field::inverse` of ark-ff, which returns `None` for zero and
/// otherwise the element whose product with the argument is one.
#[verifier::external_body]
fn field_inverse(a: &Scalar) -> (r: Option<Scalar>)
    ensures
        r.is_none() <==> a@ == 0,
        r matches Some(x) ==> mul_mod(a@, x@) == 1,
{
    Fr::from(BigInt::new(a.limbs)).inverse().map(|x| Scalar { limbs: x.into_bigint().0 })
}

/// Calls `PrimeField::from_le_bytes_mod_order` of ark-ff, which reads the
/// bytes as a little-endian number and reduces it by the field's modulus.
#[verifier::external_body]
fn field_from_le_bytes(bytes: &[u8]) -> (r: Scalar)
    ensures
        r@ == le_value(bytes@) % order(),
{
    Scalar { limbs: Fr::from_le_bytes_mod_order(bytes).into_bigint().0 }
}

/// Calls `Field::from_random_bytes` of ark-ff. It copies the first 32 bytes
/// into a buffer of zeros, clears the three top bits of the last of them, and
/// reads the buffer as a little-endian number: a field element where the
/// number is below the modulus, and nothing otherwise.
#[verifier::external_body]
fn field_from_random_bytes(bytes: &[u8]) -> (r: Option<Scalar>)
    ensures
        r.is_some() == scalar_from_random_bytes(bytes@).is_some(),
        r matches Some(x) ==> scalar_from_random_bytes(bytes@) == Some(x@),
{
    Fr::from_random_bytes(bytes).map(|x| Scalar { limbs: x.into_bigint().0 })
}

/// Calls `CanonicalSerialize::serialize_compressed` of ark-serialize on the
/// field element, which writes the 32 little-endian bytes of its value.
/// Writing into a vector does not fail.
#[verifier::external_body]
fn field_encode(a: &Scalar) -> (r: Vec<u8>)
    ensures
        r@ == le_bytes(a@, 32),
{
    let mut out = Vec::new();
    Fr::from(BigInt::new(a.limbs)).serialize_compressed(&mut out).unwrap();
    out
}

/// Calls `SeedableRng::from_seed` for the `StdRng` of ark-std's `rand` and
/// draws scalars from that generator through `Rng::sample_iter`: as many as
/// asked for, and the same for the same seed.
#[verifier::external_body]
pub(crate) fn scalars_from_seed(seed: &[u8], count: usize) -> (r: Vec<Scalar>)
    requires
        seed@.len() == 32,
    ensures
        r@.len() == count,
        scalar_values(r@) == seeded_scalars(seed@, count as nat),
{
    let seed: [u8; 32] = seed.try_into().unwrap();
    StdRng::from_seed(seed).sample_iter::<Fr, Standard>(Standard).take(count).map(
        |x| Scalar { limbs: x.into_bigint().0 },
    ).collect()
}

/// Draws scalars from the generator that `ark_std::test_rng` hands out,
/// through `Rng::sample_iter`. Nothing is known of the values drawn.
#[verifier::external_body]
pub(crate) fn random_scalars(count: usize) -> (r: Vec<Scalar>)
    ensures
        r@.len() == count,
{
    ark_std::test_rng().sample_iter::<Fr, Standard>(Standard).take(count).map(
        |x| Scalar { limbs: x.into_bigint().0 },
    ).collect()
}

} // verus!
