//! Threshold Schnorr signatures over the Ed25519 group: trusted-dealer secret
//! sharing, two-round signing and verification.
//!
//! - `scalar` and `group`: the scalar field and the group, whose arithmetic
//!   is that of the arkworks crates.
//! - `ciphersuite`: the domain-separated hash functions.
//! - `shamir`: splitting a secret into shares and recovering it.
//! - `helper`: nonces, interpolating values, binding factors, the group
//!   commitment and the challenge.
//! - `frost`: the signers and the coordinator of one signing session.
//! - `schnorr`: signatures of a single signer.
//! - `collaborative`: a signer without a binding nonce.
//! - `interpolation`: why interpolation at zero recovers a shared secret.

pub mod ciphersuite;
pub mod collaborative;
pub mod frost;
pub mod group;
pub mod helper;
pub mod interpolation;
pub mod scalar;
pub mod schnorr;
pub mod shamir;
