use sha2::{Digest, Sha512};
use threshold_schnorr::ciphersuite::{CONTEXT_STRING, H1, H2, H3, H4, H5};

fn tagged(tag: &[u8], m: &[u8]) -> Vec<u8> {
    let mut hasher = Sha512::new();
    hasher.update(CONTEXT_STRING);
    hasher.update(tag);
    hasher.update(m);
    hasher.finalize().to_vec()
}

#[test]
fn context_string_names_the_ciphersuite() {
    assert_eq!(CONTEXT_STRING, "FROST-ED25519-SHA512-v1");
}

#[test]
fn h2_is_plain_sha512() {
    let expected: Vec<u8> = vec![
        0xdd, 0xaf, 0x35, 0xa1, 0x93, 0x61, 0x7a, 0xba, 0xcc, 0x41, 0x73, 0x49, 0xae, 0x20, 0x41,
        0x31, 0x12, 0xe6, 0xfa, 0x4e, 0x89, 0xa9, 0x7e, 0xa2, 0x0a, 0x9e, 0xee, 0xe6, 0x4b, 0x55,
        0xd3, 0x9a, 0x21, 0x92, 0x99, 0x2a, 0x27, 0x4f, 0xc1, 0xa8, 0x36, 0xba, 0x3c, 0x23, 0xa3,
        0xfe, 0xeb, 0xbd, 0x45, 0x4d, 0x44, 0x23, 0x64, 0x3c, 0xe8, 0x0e, 0x2a, 0x9a, 0xc9, 0x4f,
        0xa5, 0x4c, 0xa4, 0x9f,
    ];
    assert_eq!(H2(b"abc".to_vec()), expected);
}

#[test]
fn tagged_hashes_follow_the_context_and_the_tag() {
    let m = b"some message".to_vec();
    assert_eq!(H1(m.clone()), tagged(b"rho", &m));
    assert_eq!(H3(m.clone()), tagged(b"nonce", &m));
    assert_eq!(H4(m.clone()), tagged(b"msg", &m));
    assert_eq!(H5(m.clone()), tagged(b"com", &m));
}

#[test]
fn hashes_of_one_message_differ_by_role() {
    let m = b"same bytes".to_vec();
    let digests = vec![H1(m.clone()), H2(m.clone()), H3(m.clone()), H4(m.clone()), H5(m.clone())];
    for i in 0..digests.len() {
        assert_eq!(digests[i].len(), 64);
        for j in 0..i {
            assert_ne!(digests[i], digests[j]);
        }
    }
}

#[test]
fn hashes_accept_the_empty_message() {
    assert_eq!(H1(Vec::new()), tagged(b"rho", &[]));
    assert_eq!(H2(Vec::new()), Sha512::digest([]).to_vec());
}
