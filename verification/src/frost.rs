//! The two-round threshold signing protocol: the state of each signer, and
//! the coordinator's aggregation and verification.
#![allow(non_snake_case)]

use crate::group::{group_add, group_scalar_mul, identity_point, Element, Point};
use crate::helper::{
    binding_factor_for_participant, binding_factor_of, derive_interpolating_value, fresh_scalars,
    has_binding_factor, identifier_values, interpolating_value, is_nonce, nonce_generate,
    occurrences, BindingFactor, NonZeroScalar,
};
use crate::interpolation::{
    cong, lemma_add_mod_cong, lemma_cong_add, lemma_cong_mod, lemma_cong_mul, lemma_cong_reduced,
    lemma_interpolation_recovers_constant, lemma_mul_mod_cong, polynomial, reduced,
    unit_differences, weighted_sum,
};
use crate::scalar::{add_mod, mul_mod, order, sum_mod, Scalar};
use crate::schnorr::SchnorrSignature;
use crate::shamir::{poly_eval, shamir_split};
use vstd::prelude::*;

verus! {

/// The commitments to a signer's hiding nonce and binding nonce.
#[derive(Debug, Copy, Clone)]
pub struct NonceCommitment {
    /// Commitment to the hiding nonce.
    pub D: Element,
    /// Commitment to the binding nonce.
    pub E: Element,
}

/// What a signer holds, as numbers and points.
pub struct SignerState {
    pub identifier: nat,
    pub x: nat,
    pub d: nat,
    pub e: nat,
    pub hiding_commitment: Point,
    pub binding_commitment: Point,
    pub rho: nat,
    /// Whether the binding factor has been stored.
    pub rho_known: bool,
}

/// A signer of one signing session: its share of the key, its two nonces with
/// their commitments, and the binding factor once it is known. The nonces
/// are for one signature: a signer is neither copied nor cloned, and signing
/// uses it up.
#[derive(Debug)]
pub struct FrostSigner {
    identifier: Scalar,
    x: Scalar,
    d: Scalar,
    e: Scalar,
    commitment: NonceCommitment,
    rho: Scalar,
    rho_known: bool,
}

impl View for FrostSigner {
    type V = SignerState;

    closed spec fn view(&self) -> SignerState {
        SignerState {
            identifier: self.identifier@,
            x: self.x@,
            d: self.d@,
            e: self.e@,
            hiding_commitment: self.commitment.D@,
            binding_commitment: self.commitment.E@,
            rho: self.rho@,
            rho_known: self.rho_known,
        }
    }
}

/// The state of a signer that has just committed to the nonces `d` and `e`
/// under the generator `g`: no binding factor yet.
pub open spec fn committed_state(index: nat, x: nat, g: Point, d: nat, e: nat) -> SignerState {
    SignerState {
        identifier: index,
        x,
        d,
        e,
        hiding_commitment: group_scalar_mul(g, d),
        binding_commitment: group_scalar_mul(g, e),
        rho: 0,
        rho_known: false,
    }
}

/// The signature share of a signer: `d + rho * e + lambda * x * challenge`.
pub open spec fn signature_share_value(state: SignerState, lambda: nat, challenge: nat) -> nat {
    add_mod(
        add_mod(state.d, mul_mod(state.rho, state.e)),
        mul_mod(mul_mod(lambda, state.x), challenge),
    )
}

impl FrostSigner {
    /// The identifier of a signer is not zero.
    #[verifier::type_invariant]
    pub open spec fn identified(self) -> bool {
        self@.identifier != 0
    }

    /// A signer with the given nonces, committed to under the generator `g`.
    /// Its index, which becomes its identifier, is not zero.
    pub fn with_nonces(index: usize, x: Scalar, g: Element, d: Scalar, e: Scalar) -> (r: FrostSigner)
        requires
            index != 0,
        ensures
            r@ == committed_state(index as nat, x@, g@, d@, e@),
            e@ == 0 ==> r@.binding_commitment == identity_point(),
    {
        let identifier = Scalar::from_u64(index as u64);
        let D = g.mul(&d);
        let E = g.mul(&e);
        FrostSigner {
            identifier,
            x,
            d,
            e,
            commitment: NonceCommitment { D, E },
            rho: Scalar::zero(),
            rho_known: false,
        }
    }

    /// A signer with fresh nonces. A blind signer has no binding nonce: its
    /// binding nonce is zero. The index, which becomes the identifier, is not zero.
    pub fn new(index: usize, x: Scalar, g: Element, is_blind: bool) -> (r: FrostSigner)
        requires
            index != 0,
        ensures
            r@ == committed_state(index as nat, x@, g@, r@.d, r@.e),
            is_nonce(r@.d, x@),
            is_blind ==> r@.e == 0 && r@.binding_commitment == identity_point(),
            !is_blind ==> is_nonce(r@.e, x@),
    {
        let d = nonce_generate(x);
        let mut e = Scalar::zero();
        if !is_blind {
            e = nonce_generate(x);
        }
        FrostSigner::with_nonces(index, x, g, d, e)
    }

    /// Stores the binding factor for use during signing.
    pub fn store_rho(&mut self, binding_factor: Scalar)
        ensures
            final(self)@ == (SignerState { rho: binding_factor@, rho_known: true, ..old(self)@ }),
    {
        proof {
            use_type_invariant(&*self);
        }
        self.rho = binding_factor;
        self.rho_known = true;
    }

    /// Whether the binding factor has been stored, so that the signer may sign.
    pub fn has_rho(&self) -> (r: bool)
        ensures
            r == self@.rho_known,
    {
        self.rho_known
    }

    /// The signature share of this signer for the challenge, among the
    /// signers with the given identifiers, of which it is one. The signer
    /// must have been handed its binding factor. Signing takes the signer
    /// and with it the nonces, which so serve for one share only.
    pub fn sign(self, challenge: Scalar, x_coordinates: &[NonZeroScalar]) -> (r: Scalar)
        requires
            self@.rho_known,
            occurrences(identifier_values(x_coordinates@), self@.identifier) == 1,
        ensures
            r@ == signature_share_value(
                self@,
                interpolating_value(identifier_values(x_coordinates@), self@.identifier),
                challenge@,
            ),
    {
        proof {
            use_type_invariant(&self);
        }
        let lambda = derive_interpolating_value(x_coordinates, NonZeroScalar::new(self.identifier));
        self.d.add(&self.rho.mul(&self.e)).add(&lambda.mul(&self.x).mul(&challenge))
    }

    /// The identifier of this signer.
    pub fn get_identifier(&self) -> (r: Scalar)
        ensures
            r@ == self@.identifier,
    {
        self.identifier
    }

    /// The commitments to the nonces of this signer.
    pub fn get_nonce_commitment(&self) -> (r: &NonceCommitment)
        ensures
            r.D@ == self@.hiding_commitment,
            r.E@ == self@.binding_commitment,
    {
        &self.commitment
    }
}

/// The part of a signature share that comes from the nonces: `d + rho * e`.
pub open spec fn nonce_part(state: SignerState) -> nat {
    add_mod(state.d, mul_mod(state.rho, state.e))
}

/// The nonce parts of the signers of a session, in their order.
pub open spec fn nonce_parts(states: Seq<SignerState>) -> Seq<nat> {
    Seq::new(states.len(), |i: int| nonce_part(states[i]))
}

/// The identifiers of the signers of a session, in their order.
pub open spec fn session_identifiers(states: Seq<SignerState>) -> Seq<nat> {
    Seq::new(states.len(), |i: int| states[i].identifier)
}

/// The signature shares of the signers of a session for a challenge, in their order.
pub open spec fn session_shares(states: Seq<SignerState>, challenge: nat) -> Seq<nat> {
    Seq::new(
        states.len(),
        |i: int|
            signature_share_value(
                states[i],
                interpolating_value(session_identifiers(states), states[i].identifier),
                challenge,
            ),
    )
}

/// Whether each signer's share of the key is the value of the polynomial at its identifier.
pub open spec fn key_shares_on(states: Seq<SignerState>, coeffs: Seq<nat>) -> bool {
    forall|i: int|
        0 <= i < states.len() ==> (#[trigger] states[i]).x == poly_eval(coeffs, states[i].identifier)
}

/// The sum of the first `k` signature shares is congruent to the sum of the
/// nonce parts plus the challenge times the weighted sum of the key shares.
proof fn lemma_partial_aggregate(states: Seq<SignerState>, coeffs: Seq<nat>, challenge: nat, k: nat)
    requires
        key_shares_on(states, coeffs),
        k <= states.len(),
    ensures
        cong(
            sum_mod(session_shares(states, challenge).take(k as int)) as int,
            (sum_mod(nonce_parts(states).take(k as int)) + weighted_sum(
                session_identifiers(states),
                session_identifiers(states).take(k as int),
                polynomial(coeffs),
            ) * challenge) as int,
        ),
    decreases k,
{
    let ids = session_identifiers(states);
    let shares = session_shares(states, challenge);
    let parts = nonce_parts(states);
    if k == 0 {
        assert(0 + 0 * (challenge as int) == 0);
    } else {
        let j = (k - 1) as int;
        lemma_partial_aggregate(states, coeffs, challenge, j as nat);
        assert(shares.take(k as int).drop_last() =~= shares.take(j));
        assert(parts.take(k as int).drop_last() =~= parts.take(j));
        assert(ids.take(k as int).drop_last() =~= ids.take(j));
        assert(shares.take(k as int).last() == shares[j]);
        assert(parts.take(k as int).last() == parts[j]);
        assert(ids.take(k as int).last() == states[j].identifier);
        let state = states[j];
        let lambda = interpolating_value(ids, state.identifier);
        let (li, xi, ci, ni) = (lambda as int, state.x as int, challenge as int, parts[j] as int);
        let (s0, n0, w0) = (
            sum_mod(shares.take(j)) as int,
            sum_mod(parts.take(j)) as int,
            weighted_sum(ids, ids.take(j), polynomial(coeffs)) as int,
        );
        // the share: n + (lambda * x) * c
        lemma_mul_mod_cong(lambda, state.x, li, xi);
        lemma_mul_mod_cong(mul_mod(lambda, state.x), challenge, li * xi, ci);
        lemma_add_mod_cong(parts[j], mul_mod(mul_mod(lambda, state.x), challenge), ni, (li * xi) * ci);
        lemma_add_mod_cong(sum_mod(shares.take(j)), shares[j], n0 + w0 * ci, ni + (li * xi) * ci);
        // the nonce parts
        lemma_add_mod_cong(sum_mod(parts.take(j)), parts[j], n0, ni);
        // the weighted sum: x * lambda more
        assert(polynomial(coeffs)(state.identifier) == state.x);
        lemma_mul_mod_cong(state.x, lambda, xi, li);
        lemma_add_mod_cong(
            weighted_sum(ids, ids.take(j), polynomial(coeffs)),
            mul_mod(state.x, lambda),
            w0,
            xi * li,
        );
        let w1 = weighted_sum(ids, ids.take(k as int), polynomial(coeffs)) as int;
        lemma_cong_mul(w1, w0 + xi * li, ci, ci);
        lemma_cong_add(sum_mod(parts.take(k as int)) as int, n0 + ni, w1 * ci, (w0 + xi * li) * ci);
        assert((n0 + w0 * ci) + (ni + (li * xi) * ci) == (n0 + ni) + (w0 + xi * li) * ci)
            by (nonlinear_arith);
    }
}

/// The signature shares of a session add up to a Schnorr response for the
/// whole key: where the signers hold shares of a polynomial with no more
/// coefficients than there are signers, and the differences of their
/// identifiers have inverses, the sum of their shares is the sum of their
/// nonce parts plus the polynomial's constant term times the challenge.
pub proof fn lemma_aggregate_is_schnorr_response(
    states: Seq<SignerState>,
    coeffs: Seq<nat>,
    challenge: nat,
)
    requires
        key_shares_on(states, coeffs),
        reduced(session_identifiers(states)),
        unit_differences(session_identifiers(states)),
        1 <= coeffs.len() <= states.len(),
        coeffs[0] < order(),
    ensures
        sum_mod(session_shares(states, challenge)) == add_mod(
            sum_mod(nonce_parts(states)),
            mul_mod(coeffs[0], challenge),
        ),
{
    let ids = session_identifiers(states);
    let shares = session_shares(states, challenge);
    let parts = nonce_parts(states);
    let n = states.len();
    lemma_partial_aggregate(states, coeffs, challenge, n);
    assert(shares.take(n as int) =~= shares);
    assert(parts.take(n as int) =~= parts);
    assert(ids.take(n as int) =~= ids);
    lemma_interpolation_recovers_constant(ids, coeffs);
    lemma_mul_mod_cong(coeffs[0], challenge, coeffs[0] as int, challenge as int);
    lemma_add_mod_cong(
        sum_mod(parts),
        mul_mod(coeffs[0], challenge),
        sum_mod(parts) as int,
        (coeffs[0] * challenge) as int,
    );
    assert(sum_mod(shares) < order()) by {
        lemma_cong_mod((sum_mod(shares.drop_last()) + shares.last()) as int);
    }
    lemma_cong_reduced(
        sum_mod(shares),
        add_mod(sum_mod(parts), mul_mod(coeffs[0], challenge)),
    );
}

/// A share that is off by `delta` puts the sum of the shares off by `delta`:
/// where `delta` is not zero, the sum is another one.
pub proof fn lemma_corrupted_share_changes_sum(shares: Seq<nat>, j: int, delta: nat)
    requires
        0 <= j < shares.len(),
        0 < delta < order(),
    ensures
        sum_mod(shares.update(j, add_mod(shares[j], delta))) == add_mod(sum_mod(shares), delta),
        sum_mod(shares.update(j, add_mod(shares[j], delta))) != sum_mod(shares),
    decreases shares.len(),
{
    let corrupted = shares.update(j, add_mod(shares[j], delta));
    let rest = shares.drop_last();
    let last = shares.last() as int;
    let (di, s0) = (delta as int, sum_mod(rest) as int);
    lemma_add_mod_cong(sum_mod(rest), shares.last(), s0, last);
    lemma_add_mod_cong(sum_mod(shares), delta, s0 + last, di);
    if j == shares.len() - 1 {
        assert(corrupted.drop_last() =~= rest);
        lemma_add_mod_cong(shares[j], delta, last, di);
        lemma_add_mod_cong(sum_mod(rest), corrupted.last(), s0, last + di);
    } else {
        assert(corrupted.drop_last() =~= rest.update(j, add_mod(rest[j], delta)));
        assert(corrupted.last() == shares.last());
        lemma_corrupted_share_changes_sum(rest, j, delta);
        lemma_add_mod_cong(sum_mod(rest), delta, s0, di);
        lemma_add_mod_cong(sum_mod(corrupted.drop_last()), corrupted.last(), s0 + di, last);
    }
    lemma_cong_reduced(sum_mod(corrupted), add_mod(sum_mod(shares), delta));
    // a sum below the order that is off by less than the order is another one
    let total = sum_mod(shares);
    assert(total < order());
    if total + delta < order() {
        vstd::arithmetic::div_mod::lemma_small_mod(total + delta, order());
    } else {
        vstd::arithmetic::div_mod::lemma_small_mod((total + delta - order()) as nat, order());
        vstd::arithmetic::div_mod::lemma_mod_add_multiples_vanish(
            total + delta - order(),
            order() as int,
        );
    }
}

/// One instance of the protocol: the generator, the signers and the group's public key.
#[derive(Debug)]
pub struct Frost {
    pub generator: Element,
    pub signers: Vec<FrostSigner>,
    /// Public key of the group.
    pub group_pk: Element,
}

/// Whether the signers hold the shares, at the points 1, 2 and so on, of the
/// polynomial with the given coefficients, each with fresh nonces and the
/// commitments to them under the generator, no binding factor yet, and no
/// binding nonce where its index is above the threshold.
pub open spec fn dealt(signers: Seq<FrostSigner>, g: Point, coeffs: Seq<nat>, threshold: nat) -> bool {
    forall|i: int|
        0 <= i < signers.len() ==> {
            let s = (#[trigger] signers[i])@;
            &&& s == committed_state((i + 1) as nat, poly_eval(coeffs, (i + 1) as nat), g, s.d, s.e)
            &&& is_nonce(s.d, s.x)
            &&& i + 1 > threshold ==> s.e == 0 && s.binding_commitment == identity_point()
            &&& i + 1 <= threshold ==> is_nonce(s.e, s.x)
        }
}

impl Frost {
    /// Deals the shares of the given key to `total_signers` signers of which
    /// `threshold` can sign, under the given generator. The signers with an
    /// index above the threshold are blind.
    pub fn deal(secret_key: Scalar, generator: Element, threshold: usize, total_signers: usize) -> (r:
        Frost)
        requires
            2 <= threshold <= total_signers,
        ensures
            r.generator == generator,
            r.group_pk@ == group_scalar_mul(generator@, secret_key@),
            r.signers@.len() == total_signers,
            exists|coeffs: Seq<nat>|
                coeffs.len() == threshold && coeffs[0] == secret_key@ && dealt(
                    r.signers@,
                    generator@,
                    coeffs,
                    threshold as nat,
                ),
    {
        let group_pk = generator.mul(&secret_key);
        let shamir_shares = shamir_split(secret_key, threshold, total_signers);
        let ghost coeffs = choose|coeffs: Seq<nat>|
            coeffs.len() == threshold && coeffs[0] == secret_key@ && crate::shamir::shares_of(
                shamir_shares@,
                coeffs,
            ) && (forall|j: int| 0 <= j < threshold ==> #[trigger] coeffs[j] < order());
        let mut signers: Vec<FrostSigner> = Vec::new();
        let mut i: usize = 0;
        while i < shamir_shares.len()
            invariant
                i <= shamir_shares.len(),
                shamir_shares@.len() == total_signers,
                signers@.len() == i,
                crate::shamir::shares_of(shamir_shares@, coeffs),
                dealt(signers@, generator@, coeffs, threshold as nat),
            decreases shamir_shares.len() - i,
        {
            let index = shamir_shares[i].index;
            let is_blind = index > threshold;
            let signer = FrostSigner::new(index, shamir_shares[i].secret, generator, is_blind);
            signers.push(signer);
            i += 1;
        }
        Frost { generator, signers, group_pk }
    }

    /// Sets up the protocol for `total_signers` signers of which `threshold`
    /// can sign: draws a key and a generator, and deals the key's shares to
    /// the signers. The signers with an index above the threshold are blind.
    pub fn signature_share(threshold: usize, total_signers: usize) -> (r: Frost)
        requires
            2 <= threshold <= total_signers,
        ensures
            r.signers@.len() == total_signers,
            exists|coeffs: Seq<nat>|
                coeffs.len() == threshold && r.group_pk@ == group_scalar_mul(
                    r.generator@,
                    coeffs[0],
                ) && dealt(r.signers@, r.generator@, coeffs, threshold as nat),
    {
        let drawn = fresh_scalars(1);
        let secret_key = drawn[0];
        let generator = Element::random();
        Frost::deal(secret_key, generator, threshold, total_signers)
    }

    /// Hands each signer the binding factor that the list holds for its identifier.
    pub fn update_binding_factors(&mut self, binding_factors: Vec<BindingFactor>)
        requires
            forall|i: int|
                0 <= i < old(self).signers@.len() ==> has_binding_factor(
                    binding_factors@,
                    (#[trigger] old(self).signers@[i])@.identifier,
                ),
        ensures
            final(self).generator == old(self).generator,
            final(self).group_pk == old(self).group_pk,
            final(self).signers@.len() == old(self).signers@.len(),
            forall|i: int|
                0 <= i < old(self).signers@.len() ==> (#[trigger] final(self).signers@[i])@ == (
                SignerState {
                    rho: binding_factor_of(
                        binding_factors@,
                        old(self).signers@[i]@.identifier,
                    )@,
                    rho_known: true,
                    ..old(self).signers@[i]@
                }),
    {
        let ghost before = self.signers@;
        let mut i: usize = 0;
        while i < self.signers.len()
            invariant
                i <= self.signers@.len(),
                self.generator == old(self).generator,
                self.group_pk == old(self).group_pk,
                before == old(self).signers@,
                self.signers@.len() == before.len(),
                forall|k: int|
                    0 <= k < before.len() ==> has_binding_factor(
                        binding_factors@,
                        (#[trigger] before[k])@.identifier,
                    ),
                forall|k: int| i <= k < before.len() ==> self.signers@[k] == before[k],
                forall|k: int|
                    0 <= k < i ==> (#[trigger] self.signers@[k])@ == (SignerState {
                        rho: binding_factor_of(binding_factors@, before[k]@.identifier)@,
                        rho_known: true,
                        ..before[k]@
                    }),
            decreases self.signers@.len() - i,
        {
            let signer = &self.signers[i];
            proof {
                use_type_invariant(signer);
            }
            let binding_factor = binding_factor_for_participant(
                binding_factors.as_slice(),
                NonZeroScalar::new(signer.get_identifier()),
            );
            self.signers[i].store_rho(binding_factor);
            i += 1;
        }
    }

    /// The sum of the signature shares, which is the response of the signature.
    pub fn signature_aggregate(&self, sig_shares: Vec<Scalar>) -> (r: Scalar)
        ensures
            r@ == sum_mod(crate::scalar::scalar_values(sig_shares@)),
    {
        let ghost values = crate::scalar::scalar_values(sig_shares@);
        let mut z = Scalar::zero();
        let mut i: usize = 0;
        while i < sig_shares.len()
            invariant
                i <= sig_shares.len(),
                values == crate::scalar::scalar_values(sig_shares@),
                z@ == sum_mod(values.take(i as int)),
            decreases sig_shares.len() - i,
        {
            proof {
                assert(values.take(i + 1).drop_last() =~= values.take(i as int));
                assert(values.take(i + 1).last() == sig_shares@[i as int]@);
            }
            z = z.add(&sig_shares[i]);
            i += 1;
        }
        proof {
            assert(values.take(i as int) =~= values);
        }
        z
    }

    /// Whether the signature is valid for the challenge: whether the
    /// generator multiplied by `s` is `R` plus the group key multiplied by the
    /// challenge.
    pub fn verify(&self, signature: SchnorrSignature, challenge: Scalar) -> (r: bool)
        ensures
            r == (group_scalar_mul(self.generator@, signature.s@) == group_add(
                signature.R@,
                group_scalar_mul(self.group_pk@, challenge@),
            )),
    {
        let lhs = self.generator.mul(&signature.s);
        let rhs = signature.R.add(&self.group_pk.mul(&challenge));
        lhs == rhs
    }
}

} // verus!
