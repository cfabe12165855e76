//! Schnorr signatures of a single signer, and the pair `(R, s)` that the
//! threshold protocol produces as well.
#![allow(non_snake_case)]

use crate::ciphersuite::{sha512_digest, H2};
use crate::group::{group_add, group_scalar_mul, Element, Point};
use crate::scalar::{add_mod, mul_mod, random_scalars, scalar_from_random_bytes, Scalar};
use ark_ed25519::{EdwardsAffine, Fq};
use ark_ff::BigInt;
use vstd::prelude::*;

verus! {

/// A Schnorr signature: the commitment `R = g^k` to a nonce `k`, and the
/// response `s = k + H(R || P || m) * x`.
#[derive(Clone, Copy, Debug)]
pub struct SchnorrSignature {
    pub R: Element,
    pub s: Scalar,
}

/// The text that ark-ec's `Display` writes for a point in affine coordinates.
pub uninterp spec fn point_text(p: Point) -> Seq<u8>;

/// The challenge of a signature: the hash of the commitment, the public key
/// and the message, where the hash stands for a scalar.
pub open spec fn schnorr_challenge(R: Point, P: Point, message: Seq<u8>) -> Option<nat> {
    scalar_from_random_bytes(sha512_digest(point_text(R) + point_text(P) + message))
}

/// The signature with the nonce `k`, where the challenge exists: its
/// commitment and its response.
pub open spec fn schnorr_signature(x: nat, P: Point, g: Point, k: nat, message: Seq<u8>) -> Option<
    (Point, nat),
> {
    let R = group_scalar_mul(g, k);
    match schnorr_challenge(R, P, message) {
        Some(e) => Some((R, add_mod(k, mul_mod(e, x)))),
        None => None,
    }
}

/// The signature as a commitment and a response.
pub open spec fn signature_parts(signature: Option<SchnorrSignature>) -> Option<(Point, nat)> {
    match signature {
        Some(signature) => Some((signature.R@, signature.s@)),
        None => None,
    }
}

/// Whether a signature is valid under the challenge `e`: whether `g^s = R + P^e`.
pub open spec fn schnorr_valid(R: Point, s: nat, P: Point, g: Point, e: nat) -> bool {
    group_scalar_mul(g, s) == group_add(R, group_scalar_mul(P, e))
}

/// Calls `to_string` on the point in affine coordinates, which goes through
/// ark-ec's `Display` for `Affine`: a text that depends on the point alone.
#[verifier::external_body]
fn point_display(a: &Element) -> (r: Vec<u8>)
    ensures
        r@ == point_text(a@),
{
    let p = EdwardsAffine::new_unchecked(Fq::from(BigInt::new(a.x)), Fq::from(BigInt::new(a.y)));
    p.to_string().into_bytes()
}

/// The challenge for a commitment, a public key and a message.
fn challenge(R: &Element, P: &Element, message: &[u8]) -> (r: Option<Scalar>)
    ensures
        r.is_some() == schnorr_challenge(R@, P@, message@).is_some(),
        r matches Some(e) ==> schnorr_challenge(R@, P@, message@) == Some(e@),
{
    let mut input: Vec<u8> = Vec::new();
    input.extend_from_slice(point_display(R).as_slice());
    input.extend_from_slice(point_display(P).as_slice());
    input.extend_from_slice(message);
    assert(input@ =~= point_text(R@) + point_text(P@) + message@);
    let hash_output = H2(input);
    Scalar::from_random_bytes(hash_output.as_slice())
}

/// A signer: its private key `x`, its public key `P` and the generator `g`, with `P = g^x`.
pub struct Signer {
    pub x: Scalar,
    pub P: Element,
    pub g: Element,
}

impl Signer {
    /// A signer with the private key `x` under the generator `g`: its
    /// public key is the generator multiplied by the private key.
    pub fn with_generator(x: Scalar, g: Element) -> (r: Signer)
        ensures
            r.x == x,
            r.g == g,
            r.P@ == group_scalar_mul(g@, x@),
    {
        let P = g.mul(&x);
        Signer { x, P, g }
    }

    /// A signer with the private key `x`, under a generator drawn at random.
    pub fn new(x: Scalar) -> (r: Signer)
        ensures
            r.x == x,
            r.P@ == group_scalar_mul(r.g@, x@),
    {
        Signer::with_generator(x, Element::random())
    }

    /// The signature of the message with the nonce `k`, where the challenge exists.
    pub fn sign_with_nonce(&self, k: Scalar, message: &[u8]) -> (r: Option<SchnorrSignature>)
        ensures
            signature_parts(r) == schnorr_signature(self.x@, self.P@, self.g@, k@, message@),
    {
        let R = self.g.mul(&k);
        match challenge(&R, &self.P, message) {
            Some(hash_output) => {
                let s = k.add(&hash_output.mul(&self.x));
                Some(SchnorrSignature { R, s })
            },
            None => None,
        }
    }

    /// The signature of the message with a nonce drawn at random, where the challenge exists.
    pub fn sign(&self, message: &[u8]) -> (r: Option<SchnorrSignature>)
        ensures
            exists|k: nat|
                signature_parts(r) == schnorr_signature(self.x@, self.P@, self.g@, k, message@),
    {
        let drawn = random_scalars(1);
        let k = drawn[0];
        let r = self.sign_with_nonce(k, message);
        assert(signature_parts(r) == schnorr_signature(self.x@, self.P@, self.g@, k@, message@));
        r
    }
}

/// The verifier of signatures.
pub struct Verifier {}

impl Verifier {
    /// Whether the signature is valid for the message under the public key
    /// `P` and the generator `g`, where the challenge exists.
    pub fn verify(signature: &SchnorrSignature, message: &[u8], P: Element, g: Element) -> (r: bool)
        requires
            schnorr_challenge(signature.R@, P@, message@).is_some(),
        ensures
            r == schnorr_valid(
                signature.R@,
                signature.s@,
                P@,
                g@,
                schnorr_challenge(signature.R@, P@, message@).unwrap(),
            ),
    {
        let hash_output = challenge(&signature.R, &P, message).unwrap();
        let lhs = g.mul(&signature.s);
        let rhs = signature.R.add(&P.mul(&hash_output));
        lhs == rhs
    }

    /// Whether the signature is valid, or nothing where the challenge does not exist.
    pub fn try_verify(signature: &SchnorrSignature, message: &[u8], P: Element, g: Element) -> (r:
        Option<bool>)
        ensures
            r.is_some() == schnorr_challenge(signature.R@, P@, message@).is_some(),
            r matches Some(valid) ==> valid == schnorr_valid(
                signature.R@,
                signature.s@,
                P@,
                g@,
                schnorr_challenge(signature.R@, P@, message@).unwrap(),
            ),
    {
        if challenge(&signature.R, &P, message).is_some() {
            Some(Verifier::verify(signature, message, P, g))
        } else {
            None
        }
    }
}

} // verus!
