//! What the signers and the coordinator compute in the second round: nonces,
//! interpolating values, binding factors, the group commitment and the challenge.

use crate::ciphersuite::{sha512_digest, tagged_input, H1, H2, H3, H4, H5};
use crate::group::{encoded_value, group_add, group_scalar_mul, identity_point, Element, Point};
use crate::scalar::{
    inverse_of, is_unit, le_bytes, le_value, mul_mod, order, scalar_values, scalars_from_seed,
    seeded_scalars, sub_mod, Scalar,
};
use rand::RngCore;
use vstd::prelude::*;

verus! {

/// A scalar that is not the additive identity: the identifier of a participant.
#[derive(Clone, Copy, Debug)]
pub struct NonZeroScalar(pub(crate) Scalar);

impl View for NonZeroScalar {
    type V = nat;

    closed spec fn view(&self) -> nat {
        self.0@
    }
}

impl PartialEq for NonZeroScalar {
    fn eq(&self, other: &NonZeroScalar) -> (r: bool) {
        self.0 == other.0
    }
}

impl vstd::std_specs::cmp::PartialEqSpecImpl for NonZeroScalar {
    open spec fn obeys_eq_spec() -> bool {
        true
    }

    open spec fn eq_spec(&self, other: &NonZeroScalar) -> bool {
        self@ == other@
    }
}

impl Eq for NonZeroScalar {

}

impl NonZeroScalar {
    /// An identifier is below the group order and is not zero.
    #[verifier::type_invariant]
    pub open spec fn nonzero(self) -> bool {
        0 < self@ < order()
    }

    /// Wraps a scalar that is known not to be zero.
    pub fn new(value: Scalar) -> (r: NonZeroScalar)
        requires
            value@ != 0,
        ensures
            r@ == value@,
    {
        proof {
            use_type_invariant(&value);
        }
        NonZeroScalar(value)
    }

    /// Wraps a scalar, and refuses zero.
    pub fn try_new(value: Scalar) -> (r: Option<NonZeroScalar>)
        ensures
            r.is_none() <==> value@ == 0,
            r matches Some(x) ==> x@ == value@,
    {
        if value.is_zero() {
            None
        } else {
            Some(NonZeroScalar::new(value))
        }
    }

    /// The scalar inside.
    pub fn value(&self) -> (r: Scalar)
        ensures
            r@ == self@,
    {
        self.0
    }
}

/// A binding factor: an identifier and the factor `rho` derived for it.
pub type BindingFactor = (NonZeroScalar, Scalar);

/// A commitment: an identifier and the commitments to the hiding and the binding nonce.
pub type Commitment = (NonZeroScalar, Element, Element);

/// The values of a list of identifiers.
pub open spec fn identifier_values(xs: Seq<NonZeroScalar>) -> Seq<nat> {
    xs.map_values(|x: NonZeroScalar| x@)
}

/// What one point `xj` contributes to the interpolating value of another point `xi`: `xj / (xj - xi)`.
pub open spec fn basis_factor(xj: nat, xi: nat) -> nat {
    mul_mod(xj, inverse_of(sub_mod(xj, xi)))
}

/// The Lagrange basis value at zero of the point `xi` among the points `xs`:
/// the product of `xj / (xj - xi)` over the points `xj` other than `xi`.
pub open spec fn interpolating_value(xs: Seq<nat>, xi: nat) -> nat
    decreases xs.len(),
{
    if xs.len() == 0 {
        1
    } else if xs.last() == xi {
        interpolating_value(xs.drop_last(), xi)
    } else {
        mul_mod(interpolating_value(xs.drop_last(), xi), basis_factor(xs.last(), xi))
    }
}

/// How often a value occurs in a list.
pub open spec fn occurrences(xs: Seq<nat>, x: nat) -> nat
    decreases xs.len(),
{
    if xs.len() == 0 {
        0
    } else {
        occurrences(xs.drop_last(), x) + if xs.last() == x {
            1nat
        } else {
            0nat
        }
    }
}

/// Two different scalars have a difference that is not zero.
pub proof fn lemma_sub_mod_nonzero(a: nat, b: nat)
    requires
        a < order(),
        b < order(),
        a != b,
    ensures
        sub_mod(a, b) != 0,
        sub_mod(a, b) < order(),
{
    let m = order() as int;
    let d = a as int - b as int;
    if d > 0 {
        vstd::arithmetic::div_mod::lemma_small_mod(d as nat, m as nat);
    } else {
        vstd::arithmetic::div_mod::lemma_small_mod((d + m) as nat, m as nat);
        vstd::arithmetic::div_mod::lemma_mod_add_multiples_vanish(d, m);
    }
}

/// Whether the difference between the point `xi` and each other point of the list has an inverse.
pub open spec fn unit_row(xs: Seq<nat>, xi: nat) -> bool {
    forall|j: int| 0 <= j < xs.len() && xs[j] != xi ==> is_unit(sub_mod(#[trigger] xs[j], xi))
}

/// The interpolating value of the point `x_i` among the points `xs`.
pub(crate) fn lagrange_coefficient(xs: &[Scalar], x_i: &Scalar) -> (r: Scalar)
    ensures
        r@ == interpolating_value(scalar_values(xs@), x_i@),
        unit_row(scalar_values(xs@), x_i@),
{
    let ghost values = scalar_values(xs@);
    let mut value = Scalar::one();
    let mut j: usize = 0;
    while j < xs.len()
        invariant
            j <= xs.len(),
            values == scalar_values(xs@),
            value@ == interpolating_value(values.take(j as int), x_i@),
            unit_row(values.take(j as int), x_i@),
        decreases xs.len() - j,
    {
        let x_j = xs[j];
        proof {
            assert(values.take(j + 1).drop_last() =~= values.take(j as int));
            assert(values.take(j + 1).last() == x_j@);
        }
        if x_j != *x_i {
            proof {
                use_type_invariant(&x_j);
                use_type_invariant(x_i);
                lemma_sub_mod_nonzero(x_j@, x_i@);
            }
            let difference = x_j.sub(x_i);
            let inverse = difference.inverse().unwrap();
            value = value.mul(&x_j.mul(&inverse));
        }
        proof {
            assert forall|k: int|
                0 <= k < values.take(j + 1).len() && values.take(j + 1)[k] != x_i@ implies is_unit(
                sub_mod(#[trigger] values.take(j + 1)[k], x_i@),
            ) by {
                if k < j {
                    assert(values.take(j + 1)[k] == values.take(j as int)[k]);
                }
            }
        }
        j += 1;
    }
    proof {
        assert(values.take(j as int) =~= values);
    }
    value
}

/// The interpolating value of the identifier `x_i` over the identifiers
/// `x_coordinates`, among which it stands exactly once.
pub fn derive_interpolating_value(x_coordinates: &[NonZeroScalar], x_i: NonZeroScalar) -> (r:
    Scalar)
    requires
        occurrences(identifier_values(x_coordinates@), x_i@) == 1,
    ensures
        r@ == interpolating_value(identifier_values(x_coordinates@), x_i@),
        unit_row(identifier_values(x_coordinates@), x_i@),
{
    let mut xs: Vec<Scalar> = Vec::new();
    let mut j: usize = 0;
    while j < x_coordinates.len()
        invariant
            j <= x_coordinates.len(),
            xs@.len() == j,
            forall|k: int| 0 <= k < j ==> (#[trigger] xs@[k])@ == x_coordinates@[k]@,
        decreases x_coordinates.len() - j,
    {
        xs.push(x_coordinates[j].0);
        j += 1;
    }
    assert(scalar_values(xs@) =~= identifier_values(x_coordinates@));
    lagrange_coefficient(xs.as_slice(), &x_i.0)
}

/// Whether a list of binding factors holds one for the identifier.
pub open spec fn has_binding_factor(list: Seq<BindingFactor>, identifier: nat) -> bool {
    exists|i: int| 0 <= i < list.len() && (#[trigger] list[i]).0@ == identifier
}

/// The first binding factor that a list holds for the identifier.
pub open spec fn binding_factor_of(list: Seq<BindingFactor>, identifier: nat) -> Scalar
    decreases list.len(),
{
    if list.len() == 0 {
        arbitrary()
    } else if list[0].0@ == identifier {
        list[0].1
    } else {
        binding_factor_of(list.drop_first(), identifier)
    }
}

/// The binding factor that the list holds for the identifier, which must be in the list.
pub fn binding_factor_for_participant(
    binding_factor_list: &[BindingFactor],
    identifier: NonZeroScalar,
) -> (r: Scalar)
    requires
        has_binding_factor(binding_factor_list@, identifier@),
    ensures
        r == binding_factor_of(binding_factor_list@, identifier@),
{
    let ghost list = binding_factor_list@;
    let mut i: usize = 0;
    proof {
        assert(list.skip(0) =~= list);
    }
    loop
        invariant
            i <= binding_factor_list.len(),
            list == binding_factor_list@,
            has_binding_factor(list.skip(i as int), identifier@),
            binding_factor_of(list, identifier@) == binding_factor_of(
                list.skip(i as int),
                identifier@,
            ),
        decreases binding_factor_list.len() - i,
    {
        proof {
            let k = choose|k: int|
                0 <= k < list.skip(i as int).len() && (#[trigger] list.skip(i as int)[k]).0@
                    == identifier@;
            assert(i < binding_factor_list.len());
            assert(list.skip(i as int)[0] == list[i as int]);
            assert(list.skip(i as int).drop_first() =~= list.skip(i + 1));
            if list[i as int].0@ != identifier@ {
                assert(k > 0);
                assert(list.skip(i + 1)[k - 1] == list.skip(i as int)[k]);
            }
        }
        let entry = binding_factor_list[i];
        if entry.0 == identifier {
            return entry.1;
        }
        i += 1;
    }
}

/// The canonical encoding of a scalar.
pub open spec fn encode_scalar(value: nat) -> Seq<u8> {
    le_bytes(value, 32)
}

/// The canonical encoding of a point.
pub open spec fn encode_point(p: Point) -> Seq<u8> {
    le_bytes(encoded_value(p), 32)
}

/// The scalar that a digest stands for: its little-endian value reduced by the group order.
pub open spec fn hash_to_scalar(digest: Seq<u8>) -> nat {
    le_value(digest) % order()
}

/// The nonce derived from random bytes and a secret.
pub open spec fn nonce_value(random: Seq<u8>, secret: nat) -> nat {
    hash_to_scalar(sha512_digest(tagged_input("nonce", random + encode_scalar(secret))))
}

/// Whether a scalar is the nonce derived from some 32 bytes and the secret.
pub open spec fn is_nonce(value: nat, secret: nat) -> bool {
    exists|random: Seq<u8>| random.len() == 32 && value == nonce_value(random, secret)
}

/// Calls `RngCore::fill_bytes` of rand on the generator that `rand::rng`
/// hands out, for 32 bytes. Nothing is known of the bytes drawn.
#[verifier::external_body]
pub(crate) fn random_bytes() -> (r: Vec<u8>)
    ensures
        r@.len() == 32,
{
    let mut bytes = [0u8; 32];
    rand::rng().fill_bytes(&mut bytes);
    bytes.to_vec()
}

/// Scalars drawn at random: those that a seed of 32 random bytes gives.
pub(crate) fn fresh_scalars(count: usize) -> (r: Vec<Scalar>)
    ensures
        r@.len() == count,
        exists|seed: Seq<u8>|
            seed.len() == 32 && scalar_values(r@) == seeded_scalars(seed, count as nat),
{
    let seed = random_bytes();
    let r = scalars_from_seed(seed.as_slice(), count);
    assert(seed@.len() == 32 && scalar_values(r@) == seeded_scalars(seed@, count as nat));
    r
}

/// The nonce that belongs to the given random bytes and secret: the hash,
/// tagged `nonce`, of the bytes followed by the encoded secret.
pub fn nonce_from_random_bytes(random: &[u8], secret: Scalar) -> (r: Scalar)
    ensures
        r@ == nonce_value(random@, secret@),
{
    let secret_bytes = secret.to_bytes();
    let mut message: Vec<u8> = Vec::with_capacity(64);
    message.extend_from_slice(random);
    message.extend_from_slice(secret_bytes.as_slice());
    assert(message@ =~= random@ + encode_scalar(secret@));
    let hash_output = H3(message);
    Scalar::from_le_bytes_mod_order(hash_output.as_slice())
}

/// A fresh nonce: 32 random bytes and the secret, hashed together.
pub fn nonce_generate(secret: Scalar) -> (r: Scalar)
    ensures
        is_nonce(r@, secret@),
{
    let random = random_bytes();
    let r = nonce_from_random_bytes(random.as_slice(), secret);
    assert(random@.len() == 32 && r@ == nonce_value(random@, secret@));
    r
}

/// The encoding of one commitment: identifier, hiding commitment, binding commitment.
pub open spec fn encoded_commitment(c: Commitment) -> Seq<u8> {
    encode_scalar(c.0@) + encode_point(c.1@) + encode_point(c.2@)
}

/// The encoding of a list of commitments: the encodings of its entries, in the list's order.
pub open spec fn encoded_commitment_list(list: Seq<Commitment>) -> Seq<u8>
    decreases list.len(),
{
    if list.len() == 0 {
        Seq::empty()
    } else {
        encoded_commitment_list(list.drop_last()) + encoded_commitment(list.last())
    }
}

/// Encodes a list of commitments for hashing.
pub fn encode_group_commitment_list(commitment_list: &[Commitment]) -> (r: Vec<u8>)
    ensures
        r@ == encoded_commitment_list(commitment_list@),
{
    let ghost list = commitment_list@;
    let mut encoded: Vec<u8> = Vec::new();
    let mut i: usize = 0;
    while i < commitment_list.len()
        invariant
            i <= commitment_list.len(),
            list == commitment_list@,
            encoded@ == encoded_commitment_list(list.take(i as int)),
        decreases commitment_list.len() - i,
    {
        let (identifier, hiding_nonce_commitment, binding_nonce_commitment) = commitment_list[i];
        let identifier_bytes = identifier.0.to_bytes();
        let hiding_nonce_commitment_bytes = hiding_nonce_commitment.to_bytes();
        let binding_nonce_commitment_bytes = binding_nonce_commitment.to_bytes();
        let ghost before = encoded@;
        encoded.extend_from_slice(identifier_bytes.as_slice());
        encoded.extend_from_slice(hiding_nonce_commitment_bytes.as_slice());
        encoded.extend_from_slice(binding_nonce_commitment_bytes.as_slice());
        proof {
            assert(list.take(i + 1).drop_last() =~= list.take(i as int));
            assert(list.take(i + 1).last() == list[i as int]);
            assert(encoded@ =~= before + encoded_commitment(list[i as int]));
        }
        i += 1;
    }
    proof {
        assert(list.take(i as int) =~= list);
    }
    encoded
}

/// What opens the hash input of every binding factor: the encoded group key,
/// the hash of the message and the hash of the encoded commitments.
pub open spec fn rho_input_prefix(group_pk: Point, list: Seq<Commitment>, msg: Seq<u8>) -> Seq<u8> {
    encode_point(group_pk) + sha512_digest(tagged_input("msg", msg)) + sha512_digest(
        tagged_input("com", encoded_commitment_list(list)),
    )
}

/// The binding factor of an identifier: the hash, tagged `rho`, of the prefix
/// followed by the encoded identifier.
pub open spec fn binding_factor_value(
    group_pk: Point,
    list: Seq<Commitment>,
    msg: Seq<u8>,
    identifier: nat,
) -> nat {
    hash_to_scalar(
        sha512_digest(
            tagged_input("rho", rho_input_prefix(group_pk, list, msg) + encode_scalar(identifier)),
        ),
    )
}

/// The binding factors of all participants, in the order of their commitments.
pub fn compute_binding_factors(group_pk: Element, commitment_list: &[Commitment], msg: Vec<u8>) -> (r:
    Vec<BindingFactor>)
    ensures
        r@.len() == commitment_list@.len(),
        forall|i: int|
            0 <= i < r@.len() ==> (#[trigger] r@[i]).0 == commitment_list@[i].0 && r@[i].1@
                == binding_factor_value(group_pk@, commitment_list@, msg@, commitment_list@[i].0@),
{
    let ghost list = commitment_list@;
    let ghost message = msg@;
    let group_pk_encoded = group_pk.to_bytes();
    let msg_hash = H4(msg);
    let encoded_commitment_hash = H5(encode_group_commitment_list(commitment_list));
    let mut rho_input_prefix_bytes: Vec<u8> = Vec::new();
    rho_input_prefix_bytes.extend_from_slice(group_pk_encoded.as_slice());
    rho_input_prefix_bytes.extend_from_slice(msg_hash.as_slice());
    rho_input_prefix_bytes.extend_from_slice(encoded_commitment_hash.as_slice());
    assert(rho_input_prefix_bytes@ =~= rho_input_prefix(group_pk@, list, message));

    let mut binding_factor_list: Vec<BindingFactor> = Vec::with_capacity(commitment_list.len());
    let mut i: usize = 0;
    while i < commitment_list.len()
        invariant
            i <= commitment_list.len(),
            list == commitment_list@,
            rho_input_prefix_bytes@ == rho_input_prefix(group_pk@, list, message),
            binding_factor_list@.len() == i,
            forall|k: int|
                0 <= k < i ==> (#[trigger] binding_factor_list@[k]).0 == list[k].0
                    && binding_factor_list@[k].1@ == binding_factor_value(
                    group_pk@,
                    list,
                    message,
                    list[k].0@,
                ),
        decreases commitment_list.len() - i,
    {
        let identifier = commitment_list[i].0;
        let identifier_bytes = identifier.0.to_bytes();
        let mut rho_input: Vec<u8> = Vec::new();
        rho_input.extend_from_slice(rho_input_prefix_bytes.as_slice());
        rho_input.extend_from_slice(identifier_bytes.as_slice());
        assert(rho_input@ =~= rho_input_prefix(group_pk@, list, message) + encode_scalar(
            identifier@,
        ));
        let hash_output = H1(rho_input);
        let binding_factor = Scalar::from_le_bytes_mod_order(hash_output.as_slice());
        binding_factor_list.push((identifier, binding_factor));
        i += 1;
    }
    binding_factor_list
}

/// The group commitment: the sum, over the commitments in their order, of the
/// hiding commitment and the binding commitment multiplied by its binding factor.
pub open spec fn group_commitment(list: Seq<Commitment>, factors: Seq<BindingFactor>) -> Point
    decreases list.len(),
{
    if list.len() == 0 {
        identity_point()
    } else {
        group_add(
            group_commitment(list.drop_last(), factors),
            group_add(
                list.last().1@,
                group_scalar_mul(list.last().2@, binding_factor_of(factors, list.last().0@)@),
            ),
        )
    }
}

/// The group commitment of a list of commitments, each of whose identifiers
/// has a binding factor in the second list.
pub fn compute_group_commitment(
    commitment_list: &[Commitment],
    binding_factor_list: Vec<BindingFactor>,
) -> (r: Element)
    requires
        forall|i: int|
            0 <= i < commitment_list@.len() ==> has_binding_factor(
                binding_factor_list@,
                (#[trigger] commitment_list@[i]).0@,
            ),
    ensures
        r@ == group_commitment(commitment_list@, binding_factor_list@),
{
    let ghost list = commitment_list@;
    let mut commitment = Element::zero();
    let mut i: usize = 0;
    while i < commitment_list.len()
        invariant
            i <= commitment_list.len(),
            list == commitment_list@,
            forall|k: int|
                0 <= k < list.len() ==> has_binding_factor(
                    binding_factor_list@,
                    (#[trigger] list[k]).0@,
                ),
            commitment@ == group_commitment(list.take(i as int), binding_factor_list@),
        decreases commitment_list.len() - i,
    {
        let (identifier, hiding_nonce_commitment, binding_nonce_commitment) = commitment_list[i];
        let binding_factor = binding_factor_for_participant(
            binding_factor_list.as_slice(),
            identifier,
        );
        let binding_nonce = binding_nonce_commitment.mul(&binding_factor);
        commitment = commitment.add(&hiding_nonce_commitment.add(&binding_nonce));
        proof {
            assert(list.take(i + 1).drop_last() =~= list.take(i as int));
            assert(list.take(i + 1).last() == list[i as int]);
        }
        i += 1;
    }
    proof {
        assert(list.take(i as int) =~= list);
    }
    commitment
}

/// The challenge: the untagged hash of the encoded group commitment, the
/// encoded group key and the message, as a scalar.
pub open spec fn challenge_value(commitment: Point, group_pk: Point, msg: Seq<u8>) -> nat {
    hash_to_scalar(sha512_digest(encode_point(commitment) + encode_point(group_pk) + msg))
}

/// The challenge that every signer uses for its share.
pub fn compute_challenge(group_commitment: Element, group_pk: Element, msg: Vec<u8>) -> (r: Scalar)
    ensures
        r@ == challenge_value(group_commitment@, group_pk@, msg@),
{
    let group_commitment_encoded_bytes = group_commitment.to_bytes();
    let group_pk_encoded_bytes = group_pk.to_bytes();
    let mut challenge_input: Vec<u8> = Vec::new();
    challenge_input.extend_from_slice(group_commitment_encoded_bytes.as_slice());
    challenge_input.extend_from_slice(group_pk_encoded_bytes.as_slice());
    challenge_input.extend_from_slice(msg.as_slice());
    assert(challenge_input@ =~= encode_point(group_commitment@) + encode_point(group_pk@) + msg@);
    let challenge_bytes = H2(challenge_input);
    Scalar::from_le_bytes_mod_order(challenge_bytes.as_slice())
}

} // verus!
