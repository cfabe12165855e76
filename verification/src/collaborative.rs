//! A signer that collaborates without a binding nonce: it hands out a hiding
//! nonce alone.

use crate::scalar::Scalar;
use vstd::prelude::*;

verus! {

/// A hiding nonce and a binding nonce.
pub struct NoncePair {
    pub hiding: Scalar,
    pub binding: Scalar,
}

/// A signer that keeps the nonce it hands out next.
pub struct CollaborativeSigner {
    curr_nonce: Scalar,
}

impl View for CollaborativeSigner {
    type V = nat;

    closed spec fn view(&self) -> nat {
        self.curr_nonce@
    }
}

impl CollaborativeSigner {
    /// A signer whose next nonce is one.
    pub fn new() -> (r: CollaborativeSigner)
        ensures
            r@ == 1,
    {
        CollaborativeSigner { curr_nonce: Scalar::one() }
    }

    /// The signer's nonce as the hiding nonce, with zero as the binding nonce.
    pub fn nonce_pair(self) -> (r: NoncePair)
        ensures
            r.hiding@ == self@,
            r.binding@ == 0,
    {
        NoncePair { hiding: self.curr_nonce, binding: Scalar::zero() }
    }
}

} // verus!
