//! Signed allowlists of validator accounts: key files, the textual and binary
//! allowlist formats, signing and verification.

pub mod allowlist;
pub mod artifact;
pub mod canonical;
pub mod error;
pub mod keyfile;
pub mod keys;
pub mod network;
pub mod primitives;
