//! The two allowlist operations end to end: compiling a textual allowlist
//! with a secret key file, and inspecting an artifact with a public key file.

use vstd::prelude::*;
use crate::artifact::{inspect, inspected, rendered, sign, signed_artifact};
use crate::canonical::{canonical, canonicalize};
use crate::error::LedgerError;
use crate::keyfile::{public_file_read, read_public, read_secret, secret_file_read};
use crate::network::{Network, tag_of};

verus! {

/// What compiling the text `text` with the secret key file `key_file` for
/// the network `tag` under `nonce` gives.
pub open spec fn compiled(text: Seq<char>, key_file: Seq<u8>, tag: u8, nonce: u32) -> Result<
    Seq<u8>,
    LedgerError,
> {
    match secret_file_read(key_file) {
        Err(e) => Err(e),
        Ok((secret, public, key_tag)) => if key_tag != tag {
            Err(LedgerError::NetworkMismatch { expected: tag, found: key_tag as u16, line: None })
        } else {
            match canonical(text, tag) {
                Err(e) => Err(e),
                Ok(ids) => Ok(signed_artifact(ids, tag, nonce, secret)),
            }
        },
    }
}

/// What inspecting an artifact with the text of a public key file gives:
/// the textual allowlist of its accounts for the key's network.
pub open spec fn inspected_text(artifact: Seq<u8>, key_file: Seq<char>) -> Result<
    Seq<char>,
    LedgerError,
> {
    match public_file_read(key_file) {
        Err(e) => Err(e),
        Ok((public, tag)) => match inspected(artifact, tag, public) {
            Err(e) => Err(e),
            Ok((nonce, ids)) => Ok(rendered(ids, tag)),
        },
    }
}

/// Compiles a textual allowlist into a signed artifact: the secret key file
/// must be valid and bound to `network`, every entry an address for it.
pub fn compile_allowlist(text: &str, key_file: &[u8], network: Network, nonce: u32) -> (r: Result<
    Vec<u8>,
    LedgerError,
>)
    requires
        text@.len() < usize::MAX,
    ensures
        match r {
            Ok(a) => compiled(text@, key_file@, tag_of(network), nonce) == Ok::<
                Seq<u8>,
                LedgerError,
            >(a@),
            Err(e) => compiled(text@, key_file@, tag_of(network), nonce) == Err::<
                Seq<u8>,
                LedgerError,
            >(e),
        },
{
    let (keypair, key_network) = match read_secret(key_file) {
        Ok(k) => k,
        Err(e) => {
            return Err(e);
        },
    };
    let tag = network.to_byte();
    let key_tag = key_network.to_byte();
    if key_tag != tag {
        return Err(LedgerError::NetworkMismatch { expected: tag, found: key_tag as u16, line: None });
    }
    let accounts = match canonicalize(text, network) {
        Ok(v) => v,
        Err(e) => {
            return Err(e);
        },
    };
    Ok(sign(&accounts, network, nonce, &keypair))
}

/// Inspects an artifact with a public key file: the network is the key's,
/// and the result is the textual allowlist of the verified accounts.
pub fn inspect_allowlist(artifact: &[u8], key_file: &str) -> (r: Result<String, LedgerError>)
    ensures
        match r {
            Ok(s) => inspected_text(artifact@, key_file@) == Ok::<Seq<char>, LedgerError>(s@),
            Err(e) => inspected_text(artifact@, key_file@) == Err::<Seq<char>, LedgerError>(e),
        },
{
    let (public, network) = match read_public(key_file) {
        Ok(k) => k,
        Err(e) => {
            return Err(e);
        },
    };
    inspect(artifact, network, &public)
}

} // verus!
