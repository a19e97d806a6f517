//! Signing keys: generation and their files on disk.

use vstd::prelude::*;
use crate::error::LedgerError;
use crate::primitives::{derive_public, ed25519_point_ok, ed25519_public_of, os_random_32};

verus! {

/// An ed25519 secret key together with its public key.
#[derive(Clone, Copy, Debug, PartialEq, Eq)]
pub struct SigningKeyPair {
    pub secret: [u8; 32],
    pub public: [u8; 32],
}

impl SigningKeyPair {
    /// The public key is the one that belongs to the secret key.
    pub open spec fn wf(&self) -> bool {
        &&& self.public@ == ed25519_public_of(self.secret@)
        &&& ed25519_point_ok(self.public@)
    }

    /// The key pair of a secret key.
    pub fn from_secret(secret: [u8; 32]) -> (r: SigningKeyPair)
        ensures
            r.secret == secret,
            r.wf(),
    {
        let public = derive_public(&secret);
        SigningKeyPair { secret, public }
    }
}

/// A fresh key pair from the system's secure random source.
pub fn generate() -> (r: Result<SigningKeyPair, LedgerError>)
    ensures
        match r {
            Ok(kp) => kp.wf(),
            Err(e) => e == LedgerError::RandomSourceError,
        },
{
    match os_random_32() {
        Some(secret) => Ok(SigningKeyPair::from_secret(secret)),
        None => Err(LedgerError::RandomSourceError),
    }
}

} // verus!
