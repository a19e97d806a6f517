//! The ways in which an operation on keys or allowlists can fail.

use vstd::prelude::*;

verus! {

/// Every failure of the key and allowlist operations.
#[derive(Clone, Debug, PartialEq, Eq)]
pub enum LedgerError {
    /// A secret key file does not start with the expected magic token.
    InvalidMagic,
    /// A key file of another format version; the secret key file names it.
    UnsupportedVersion { found: Option<u16> },
    /// A secret key file of the wrong length.
    BadKeyLength { expected: usize, actual: usize },
    /// Data bound to another network than the one expected; `line` is the
    /// line of a textual allowlist where the address stood.
    NetworkMismatch { expected: u8, found: u16, line: Option<usize> },
    /// A line of a textual allowlist that is not a valid address.
    InvalidAddress { line: usize },
    /// The signature of an artifact does not verify.
    InvalidSignature,
    /// The accounts of an artifact are not a whole number of 32-byte chunks.
    MalformedPayload,
    /// An artifact too short to hold its header and signature.
    TruncatedArtifact { actual: usize },
    /// A public key that does not belong to the secret key it goes with.
    KeyMismatch,
    /// A network that has no name in the key file format.
    UnknownNetwork,
    /// A key file prefix that carries an extension.
    InvalidFilename,
    /// Bytes that do not encode a key.
    InvalidKeyEncoding,
    /// A file could not be read or written.
    IOError,
    /// The system's random source failed.
    RandomSourceError,
}

} // verus!
