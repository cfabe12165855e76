use threshold_schnorr::ciphersuite::{H1, H2, H3, H4, H5};
use threshold_schnorr::frost::{Frost, FrostSigner};
use threshold_schnorr::group::Element;
use threshold_schnorr::helper::{
    binding_factor_for_participant, compute_binding_factors, compute_challenge,
    compute_group_commitment, encode_group_commitment_list, nonce_from_random_bytes,
    nonce_generate, BindingFactor, Commitment, NonZeroScalar,
};
use threshold_schnorr::scalar::Scalar;
use threshold_schnorr::schnorr::SchnorrSignature;
use threshold_schnorr::shamir::shares_from_coefficients;

const MESSAGE: &[u8] = b"asia is underrated";

fn commitment_of(signer: &FrostSigner) -> Commitment {
    let commitment = signer.get_nonce_commitment();
    (NonZeroScalar::new(signer.get_identifier()), commitment.D, commitment.E)
}

fn generator() -> Element {
    Element::random()
}

/// A fresh deal of the key 31337 among five signers of whom three can sign,
/// with the signers at the given positions only.
fn fresh_session(positions: &[usize]) -> Frost {
    let Frost { generator, signers, group_pk } =
        Frost::deal(Scalar::from_u64(31337), generator(), 3, 5);
    let signers = signers
        .into_iter()
        .enumerate()
        .filter(|(position, _)| positions.contains(position))
        .map(|(_, signer)| signer)
        .collect();
    Frost { generator, signers, group_pk }
}

/// Runs the session to its end, which uses its signers up, and returns the
/// signature, the challenge and the signature shares.
fn run_session(session: &mut Frost, message: &[u8]) -> (SchnorrSignature, Scalar, Vec<Scalar>) {
    let commitments: Vec<Commitment> = session.signers.iter().map(commitment_of).collect();
    let binding_factors = compute_binding_factors(session.group_pk, &commitments, message.to_vec());
    session.update_binding_factors(binding_factors.clone());
    let x_coordinates: Vec<NonZeroScalar> =
        session.signers.iter().map(|s| NonZeroScalar::new(s.get_identifier())).collect();
    let group_commitment = compute_group_commitment(&commitments, binding_factors);
    let challenge = compute_challenge(group_commitment, session.group_pk, message.to_vec());
    let signers = std::mem::take(&mut session.signers);
    let shares: Vec<Scalar> =
        signers.into_iter().map(|s| s.sign(challenge, &x_coordinates)).collect();
    let s = session.signature_aggregate(shares.clone());
    (SchnorrSignature { R: group_commitment, s }, challenge, shares)
}

#[test]
fn all_signers_together_sign_validly() {
    let mut protocol = Frost::signature_share(3, 5);
    assert_eq!(protocol.signers.len(), 5);
    let (signature, challenge, shares) = run_session(&mut protocol, MESSAGE);
    assert_eq!(shares.len(), 5);
    assert_eq!(protocol.signers.len(), 0);
    assert!(protocol.verify(signature, challenge));
}

#[test]
fn every_three_of_five_sign_validly() {
    for a in 0..5usize {
        for b in (a + 1)..5usize {
            for c in (b + 1)..5usize {
                let mut session = fresh_session(&[a, b, c]);
                assert_eq!(session.signers.len(), 3);
                assert_eq!(session.group_pk, generator().mul(&Scalar::from_u64(31337)));
                let (signature, challenge, _) = run_session(&mut session, MESSAGE);
                assert!(session.verify(signature, challenge));
            }
        }
    }
}

#[test]
fn two_of_five_do_not_sign_validly() {
    let mut session = fresh_session(&[0, 1]);
    let (signature, challenge, _) = run_session(&mut session, MESSAGE);
    assert!(!session.verify(signature, challenge));
}

#[test]
fn every_session_has_nonces_of_its_own() {
    let mut first = fresh_session(&[0, 2, 4]);
    let mut second = fresh_session(&[0, 2, 4]);
    let (first_signature, first_challenge, _) = run_session(&mut first, MESSAGE);
    let (second_signature, second_challenge, _) = run_session(&mut second, MESSAGE);
    assert_ne!(first_signature.R, second_signature.R);
    assert_ne!(first_signature.s, second_signature.s);
    assert!(first.verify(first_signature, first_challenge));
    assert!(second.verify(second_signature, second_challenge));
    assert!(!first.verify(second_signature, first_challenge));
}

#[test]
fn every_setup_draws_a_key_of_its_own() {
    let first = Frost::signature_share(2, 3);
    let second = Frost::signature_share(2, 3);
    assert_ne!(first.group_pk, second.group_pk);
    assert_ne!(first.group_pk, Element::zero());
}

#[test]
fn a_deal_is_of_the_given_key_under_the_given_generator() {
    let key = Scalar::from_u64(777);
    let g = generator().mul(&Scalar::from_u64(5));
    let protocol = Frost::deal(key, g, 2, 4);
    assert_eq!(protocol.generator, g);
    assert_eq!(protocol.group_pk, g.mul(&key));
    assert_eq!(protocol.signers.len(), 4);
    for i in 0..4usize {
        assert_eq!(protocol.signers[i].get_identifier(), Scalar::from_u64(i as u64 + 1));
        assert!(!protocol.signers[i].has_rho());
        let blind = protocol.signers[i].get_nonce_commitment().E == Element::zero();
        assert_eq!(blind, i + 1 > 2);
    }
}

#[test]
fn a_corrupted_share_is_rejected() {
    let mut session = fresh_session(&[0, 1, 2]);
    let (signature, challenge, mut shares) = run_session(&mut session, MESSAGE);
    assert!(session.verify(signature, challenge));
    shares[1] = shares[1].add(&Scalar::from_u64(1));
    let corrupted = session.signature_aggregate(shares);
    assert_ne!(corrupted, signature.s);
    assert!(!session.verify(SchnorrSignature { R: signature.R, s: corrupted }, challenge));
}

#[test]
fn a_share_that_is_off_puts_the_sum_off_by_as_much() {
    let protocol = Frost { generator: generator(), signers: Vec::new(), group_pk: generator() };
    let shares = vec![Scalar::from_u64(10), Scalar::zero().sub(&Scalar::from_u64(3)), Scalar::one()];
    let sum = protocol.signature_aggregate(shares.clone());
    assert_eq!(sum, Scalar::from_u64(8));
    let mut corrupted = shares;
    corrupted[1] = corrupted[1].add(&Scalar::from_u64(5));
    assert_eq!(protocol.signature_aggregate(corrupted), Scalar::from_u64(13));
}

#[test]
fn a_signature_does_not_fit_another_challenge() {
    let mut session = fresh_session(&[1, 2, 3]);
    let (signature, challenge, _) = run_session(&mut session, MESSAGE);
    let other = challenge.add(&Scalar::one());
    assert!(!session.verify(signature, other));
}

#[test]
fn reused_nonces_give_different_shares_for_different_messages() {
    // a nonce pair can serve twice only where two signers are built from it on purpose
    let g = generator();
    let (x, d, e) = (Scalar::from_u64(5), Scalar::from_u64(11), Scalar::from_u64(13));
    let xs: Vec<NonZeroScalar> =
        vec![1u64, 2, 3].into_iter().map(|v| NonZeroScalar::new(Scalar::from_u64(v))).collect();
    let (rho1, rho2) = (Scalar::from_u64(100), Scalar::from_u64(300));
    let (c1, c2) = (Scalar::from_u64(7), Scalar::from_u64(1000));
    let mut first = FrostSigner::with_nonces(2, x, g, d, e);
    let mut second = FrostSigner::with_nonces(2, x, g, d, e);
    assert_eq!(first.get_nonce_commitment().D, second.get_nonce_commitment().D);
    assert_eq!(first.get_nonce_commitment().E, second.get_nonce_commitment().E);
    first.store_rho(rho1);
    second.store_rho(rho2);
    let share1 = first.sign(c1, &xs);
    let share2 = second.sign(c2, &xs);
    assert_ne!(share1, share2);
    // the difference is (rho1 - rho2) * e + lambda * x * (c1 - c2), with lambda = -3
    let lambda = Scalar::zero().sub(&Scalar::from_u64(3));
    let expected = rho1.sub(&rho2).mul(&e).add(&lambda.mul(&x).mul(&c1.sub(&c2)));
    assert_eq!(share1.sub(&share2), expected);
}

#[test]
fn identifier_zero_is_rejected() {
    for _ in 0..3 {
        assert!(NonZeroScalar::try_new(Scalar::zero()).is_none());
        assert!(NonZeroScalar::try_new(Scalar::from_u64(5).sub(&Scalar::from_u64(5))).is_none());
        assert!(NonZeroScalar::try_new(Scalar::from_le_bytes_mod_order(&[0, 0, 0])).is_none());
    }
}

#[test]
fn other_identifiers_are_accepted() {
    let one = NonZeroScalar::try_new(Scalar::one()).unwrap();
    assert_eq!(one.value(), Scalar::one());
    assert_eq!(one, NonZeroScalar::new(Scalar::one()));
    assert_ne!(one, NonZeroScalar::new(Scalar::from_u64(2)));
}

#[test]
fn signers_are_dealt_identifiers_one_to_n() {
    let protocol = Frost::signature_share(2, 4);
    for i in 0..4usize {
        assert_eq!(protocol.signers[i].get_identifier(), Scalar::from_u64(i as u64 + 1));
    }
}

#[test]
fn signers_above_the_threshold_are_blind() {
    let protocol = Frost::signature_share(3, 5);
    for i in 0..5usize {
        let commitment = protocol.signers[i].get_nonce_commitment();
        assert_ne!(commitment.D, Element::zero());
        if i + 1 > 3 {
            assert_eq!(commitment.E, Element::zero());
        } else {
            assert_ne!(commitment.E, Element::zero());
        }
    }
}

#[test]
fn a_blind_signer_commits_to_no_binding_nonce() {
    let g = Element::random();
    let x = Scalar::from_u64(1000);
    let blind = FrostSigner::new(7, x, g, true);
    assert_eq!(blind.get_identifier(), Scalar::from_u64(7));
    assert_eq!(blind.get_nonce_commitment().E, Element::zero());
    let open = FrostSigner::new(7, x, g, false);
    assert_ne!(open.get_nonce_commitment().E, Element::zero());
    assert_ne!(open.get_nonce_commitment().D, blind.get_nonce_commitment().D);
}

#[test]
fn a_signer_commits_to_its_nonces_under_the_generator() {
    let g = Element::random();
    let d = Scalar::from_u64(11);
    let e = Scalar::from_u64(13);
    let signer = FrostSigner::with_nonces(2, Scalar::from_u64(5), g, d, e);
    assert_eq!(signer.get_identifier(), Scalar::from_u64(2));
    assert_eq!(signer.get_nonce_commitment().D, g.mul(&d));
    assert_eq!(signer.get_nonce_commitment().E, g.mul(&e));
}

#[test]
fn a_share_is_the_nonces_plus_the_weighted_key_share() {
    let g = Element::random();
    let (x, d, e) = (Scalar::from_u64(5), Scalar::from_u64(11), Scalar::from_u64(13));
    let xs: Vec<NonZeroScalar> =
        vec![1u64, 2, 3].into_iter().map(|v| NonZeroScalar::new(Scalar::from_u64(v))).collect();
    let challenge = Scalar::from_u64(7);
    // lambda = -3 among 1, 2, 3; with the binding factor 0: 11 + 0 * 13 - 3 * 5 * 7
    let mut signer = FrostSigner::with_nonces(2, x, g, d, e);
    assert!(!signer.has_rho());
    signer.store_rho(Scalar::zero());
    assert!(signer.has_rho());
    let expected = Scalar::from_u64(11).sub(&Scalar::from_u64(105));
    assert_eq!(signer.sign(challenge, &xs), expected);
    // with the binding factor 2: 11 + 2 * 13 - 105
    let mut signer = FrostSigner::with_nonces(2, x, g, d, e);
    signer.store_rho(Scalar::from_u64(2));
    let expected = Scalar::from_u64(37).sub(&Scalar::from_u64(105));
    assert_eq!(signer.sign(challenge, &xs), expected);
    // alone in the session, lambda = 1: 37 + 5 * 7
    let mut signer = FrostSigner::with_nonces(2, x, g, d, e);
    signer.store_rho(Scalar::from_u64(2));
    assert_eq!(signer.sign(challenge, &xs[1..2]), Scalar::from_u64(72));
}

#[test]
fn shares_add_up_to_a_response_for_the_whole_key() {
    // the key 9 is shared by f(x) = 9 + 4x among the signers 1, 2 and 3
    let coeffs = vec![Scalar::from_u64(9), Scalar::from_u64(4)];
    let key_shares = shares_from_coefficients(&coeffs, 3);
    let g = Element::random();
    let challenge = Scalar::from_u64(1000);
    let xs: Vec<NonZeroScalar> =
        vec![1u64, 2, 3].into_iter().map(|v| NonZeroScalar::new(Scalar::from_u64(v))).collect();
    let mut shares = Vec::new();
    let mut nonces = Scalar::zero();
    for i in 0..3usize {
        let d = Scalar::from_u64(10 + i as u64);
        let e = Scalar::from_u64(20 + i as u64);
        let rho = Scalar::from_u64(30 + i as u64);
        let mut signer = FrostSigner::with_nonces(i + 1, key_shares[i].secret, g, d, e);
        signer.store_rho(rho);
        shares.push(signer.sign(challenge, &xs));
        nonces = nonces.add(&d.add(&rho.mul(&e)));
    }
    // 10 + 30 * 20 + 11 + 31 * 21 + 12 + 32 * 22 = 1988
    assert_eq!(nonces, Scalar::from_u64(1988));
    let protocol = Frost { generator: g, signers: Vec::new(), group_pk: g.mul(&coeffs[0]) };
    let s = protocol.signature_aggregate(shares);
    assert_eq!(s, Scalar::from_u64(1988 + 9 * 1000));
    assert!(protocol.verify(SchnorrSignature { R: g.mul(&nonces), s }, challenge));
}

#[test]
fn storing_a_binding_factor_keeps_the_rest() {
    let g = Element::random();
    let mut signer = FrostSigner::new(3, Scalar::from_u64(8), g, false);
    let before = *signer.get_nonce_commitment();
    assert!(!signer.has_rho());
    signer.store_rho(Scalar::from_u64(99));
    assert!(signer.has_rho());
    assert_eq!(signer.get_identifier(), Scalar::from_u64(3));
    assert_eq!(signer.get_nonce_commitment().D, before.D);
    assert_eq!(signer.get_nonce_commitment().E, before.E);
}

#[test]
fn shares_are_summed() {
    let protocol = Frost::signature_share(2, 2);
    let shares = vec![Scalar::from_u64(1), Scalar::from_u64(2), Scalar::from_u64(3)];
    assert_eq!(protocol.signature_aggregate(shares), Scalar::from_u64(6));
    assert_eq!(protocol.signature_aggregate(Vec::new()), Scalar::zero());
    let wrapping = vec![Scalar::zero().sub(&Scalar::one()), Scalar::from_u64(5)];
    assert_eq!(protocol.signature_aggregate(wrapping), Scalar::from_u64(4));
}

#[test]
fn verification_checks_the_schnorr_equation() {
    let generator = Element::random();
    let key = Scalar::from_u64(31337);
    let protocol = Frost { generator, signers: Vec::new(), group_pk: generator.mul(&key) };
    let k = Scalar::from_u64(17);
    let challenge = Scalar::from_u64(23);
    let signature = SchnorrSignature { R: generator.mul(&k), s: k.add(&challenge.mul(&key)) };
    assert!(protocol.verify(signature, challenge));
    let wrong = SchnorrSignature { R: generator.mul(&k), s: k.add(&challenge.mul(&key)).add(&key) };
    assert!(!protocol.verify(wrong, challenge));
}

#[test]
fn binding_factors_keep_the_order_of_the_commitments() {
    let protocol = Frost::signature_share(3, 5);
    let commitments: Vec<Commitment> =
        [4usize, 0, 2].iter().map(|&p| commitment_of(&protocol.signers[p])).collect();
    let factors = compute_binding_factors(protocol.group_pk, &commitments, MESSAGE.to_vec());
    assert_eq!(factors.len(), 3);
    for i in 0..3usize {
        assert_eq!(factors[i].0, commitments[i].0);
    }
    assert_eq!(compute_binding_factors(protocol.group_pk, &[], MESSAGE.to_vec()).len(), 0);
}

#[test]
fn binding_factors_are_the_same_for_every_party() {
    let protocol = Frost::signature_share(3, 5);
    let commitments: Vec<Commitment> = protocol.signers.iter().map(commitment_of).collect();
    let first = compute_binding_factors(protocol.group_pk, &commitments, MESSAGE.to_vec());
    let second = compute_binding_factors(protocol.group_pk, &commitments, MESSAGE.to_vec());
    assert_eq!(first, second);
}

#[test]
fn a_binding_factor_is_the_hash_of_the_session_and_the_identifier() {
    let protocol = Frost::signature_share(2, 3);
    let commitments: Vec<Commitment> = protocol.signers.iter().map(commitment_of).collect();
    let factors = compute_binding_factors(protocol.group_pk, &commitments, MESSAGE.to_vec());
    let mut prefix = protocol.group_pk.to_bytes();
    prefix.extend(H4(MESSAGE.to_vec()));
    prefix.extend(H5(encode_group_commitment_list(&commitments)));
    for i in 0..3usize {
        let mut input = prefix.clone();
        input.extend(commitments[i].0.value().to_bytes());
        assert_eq!(factors[i].1, Scalar::from_le_bytes_mod_order(&H1(input)));
    }
}

#[test]
fn binding_factors_depend_on_the_message_and_the_commitments() {
    let protocol = Frost::signature_share(2, 3);
    let commitments: Vec<Commitment> = protocol.signers.iter().map(commitment_of).collect();
    let first = compute_binding_factors(protocol.group_pk, &commitments, b"a".to_vec());
    let second = compute_binding_factors(protocol.group_pk, &commitments, b"b".to_vec());
    let third = compute_binding_factors(protocol.group_pk, &commitments[..2], b"a".to_vec());
    assert_ne!(first[0].1, second[0].1);
    assert_ne!(first[0].1, third[0].1);
    assert_ne!(first[0].1, first[1].1);
}

#[test]
fn commitments_are_encoded_one_after_the_other() {
    let protocol = Frost::signature_share(2, 3);
    let commitments: Vec<Commitment> = protocol.signers.iter().map(commitment_of).collect();
    let encoded = encode_group_commitment_list(&commitments);
    assert_eq!(encoded.len(), 3 * 96);
    let mut expected = Vec::new();
    for (identifier, hiding, binding) in commitments.iter() {
        expected.extend(identifier.value().to_bytes());
        expected.extend(hiding.to_bytes());
        expected.extend(binding.to_bytes());
    }
    assert_eq!(encoded, expected);
    assert_eq!(encoded[0], 1);
    assert_eq!(encoded[96], 2);
    assert_eq!(encode_group_commitment_list(&[]), Vec::<u8>::new());
}

#[test]
fn the_first_binding_factor_of_an_identifier_is_taken() {
    let one = NonZeroScalar::new(Scalar::from_u64(1));
    let two = NonZeroScalar::new(Scalar::from_u64(2));
    let list: Vec<BindingFactor> = vec![
        (two, Scalar::from_u64(20)),
        (one, Scalar::from_u64(10)),
        (two, Scalar::from_u64(21)),
    ];
    assert_eq!(binding_factor_for_participant(&list, one), Scalar::from_u64(10));
    assert_eq!(binding_factor_for_participant(&list, two), Scalar::from_u64(20));
}

#[test]
fn the_group_commitment_sums_the_weighted_commitments() {
    let g = Element::random();
    let one = NonZeroScalar::new(Scalar::from_u64(1));
    let two = NonZeroScalar::new(Scalar::from_u64(2));
    let (d1, e1) = (g.mul(&Scalar::from_u64(3)), g.mul(&Scalar::from_u64(5)));
    let (d2, e2) = (g.mul(&Scalar::from_u64(7)), g.mul(&Scalar::from_u64(11)));
    let commitments: Vec<Commitment> = vec![(one, d1, e1), (two, d2, e2)];
    let factors: Vec<BindingFactor> =
        vec![(two, Scalar::from_u64(100)), (one, Scalar::from_u64(10))];
    // 3 + 10 * 5 + 7 + 100 * 11 = 1160
    let expected = g.mul(&Scalar::from_u64(1160));
    assert_eq!(compute_group_commitment(&commitments, factors.clone()), expected);
    assert_eq!(compute_group_commitment(&commitments[..1], factors.clone()), g.mul(&Scalar::from_u64(53)));
    assert_eq!(compute_group_commitment(&[], factors), Element::zero());
}

#[test]
fn the_challenge_is_the_hash_of_commitment_key_and_message() {
    let g = Element::random();
    let commitment = g.mul(&Scalar::from_u64(3));
    let key = g.mul(&Scalar::from_u64(4));
    let mut input = commitment.to_bytes();
    input.extend(key.to_bytes());
    input.extend_from_slice(MESSAGE);
    let expected = Scalar::from_le_bytes_mod_order(&H2(input));
    assert_eq!(compute_challenge(commitment, key, MESSAGE.to_vec()), expected);
    assert_ne!(compute_challenge(key, commitment, MESSAGE.to_vec()), expected);
    assert_ne!(compute_challenge(commitment, key, b"other".to_vec()), expected);
}

#[test]
fn a_nonce_is_the_hash_of_the_random_bytes_and_the_secret() {
    let secret = Scalar::from_u64(424242);
    let random = [7u8; 32];
    let mut input = random.to_vec();
    input.extend(secret.to_bytes());
    let expected = Scalar::from_le_bytes_mod_order(&H3(input));
    assert_eq!(nonce_from_random_bytes(&random, secret), expected);
    assert_ne!(nonce_from_random_bytes(&[8u8; 32], secret), expected);
    assert_ne!(nonce_from_random_bytes(&random, Scalar::from_u64(1)), expected);
}

#[test]
fn fresh_nonces_differ() {
    let secret = Scalar::from_u64(5);
    let first = nonce_generate(secret);
    let second = nonce_generate(secret);
    assert_ne!(first, second);
    assert_ne!(first, secret);
}
