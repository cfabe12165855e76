//! The hash functions of the ciphersuite FROST(Ed25519, SHA-512): one
//! underlying hash, separated into five roles by a context string and a tag.
#![allow(non_snake_case)]

use sha2::{Digest, Sha512};
use vstd::prelude::*;
use vstd::string::StringSliceAdditionalSpecFns;

verus! {

/// The context string that opens the input of every tagged hash.
pub const CONTEXT_STRING: &'static str = "FROST-ED25519-SHA512-v1";

/// The SHA-512 digest of a byte string, as sha2 computes it.
pub uninterp spec fn sha512_digest(data: Seq<u8>) -> Seq<u8>;

/// The input of a tagged hash: the context string, the tag, then the message.
pub open spec fn tagged_input(tag: &str, m: Seq<u8>) -> Seq<u8> {
    "FROST-ED25519-SHA512-v1".spec_bytes() + tag.spec_bytes() + m
}

/// Calls `Digest::digest` of sha2's `Sha512` on the bytes: a digest of 64
/// bytes that depends on the bytes alone.
#[verifier::external_body]
fn sha512(data: &[u8]) -> (r: Vec<u8>)
    ensures
        r@ == sha512_digest(data@),
        r@.len() == 64,
{
    Sha512::digest(data).to_vec()
}

/// Hashes the context string, a tag and a message, in that order.
fn tagged_hash(tag: &str, m: &Vec<u8>) -> (r: Vec<u8>)
    ensures
        r@ == sha512_digest(tagged_input(tag, m@)),
        r@.len() == 64,
{
    let mut input: Vec<u8> = Vec::new();
    input.extend_from_slice(CONTEXT_STRING.as_bytes());
    input.extend_from_slice(tag.as_bytes());
    input.extend_from_slice(m.as_slice());
    assert(input@ =~= tagged_input(tag, m@));
    sha512(input.as_slice())
}

/// The hash that derives a binding factor, tagged `rho`.
pub fn H1(m: Vec<u8>) -> (r: Vec<u8>)
    ensures
        r@ == sha512_digest(tagged_input("rho", m@)),
        r@.len() == 64,
{
    tagged_hash("rho", &m)
}

/// The hash that gives the challenge: SHA-512 of the message with no context and no tag.
pub fn H2(m: Vec<u8>) -> (r: Vec<u8>)
    ensures
        r@ == sha512_digest(m@),
        r@.len() == 64,
{
    sha512(m.as_slice())
}

/// The hash that derives a nonce, tagged `nonce`.
pub fn H3(m: Vec<u8>) -> (r: Vec<u8>)
    ensures
        r@ == sha512_digest(tagged_input("nonce", m@)),
        r@.len() == 64,
{
    tagged_hash("nonce", &m)
}

/// The hash of the message that is signed, tagged `msg`.
pub fn H4(m: Vec<u8>) -> (r: Vec<u8>)
    ensures
        r@ == sha512_digest(tagged_input("msg", m@)),
        r@.len() == 64,
{
    tagged_hash("msg", &m)
}

/// The hash of the encoded list of commitments, tagged `com`.
pub fn H5(m: Vec<u8>) -> (r: Vec<u8>)
    ensures
        r@ == sha512_digest(tagged_input("com", m@)),
        r@.len() == 64,
{
    tagged_hash("com", &m)
}

} // verus!
