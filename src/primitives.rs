//! The outside functions that the library relies on, each behind one small
//! wrapper whose contract states what the outside crate provides.

use vstd::prelude::*;

verus! {

/// A base-58 digit, as the SS58 address text uses them.
pub open spec fn is_base58_char(c: char) -> bool {
    ('1' <= c && c <= '9') || ('A' <= c && c <= 'Z' && c != 'I' && c != 'O') || ('a' <= c
        && c <= 'z' && c != 'l')
}

/// The account and address prefix that an SS58 text decodes to, if it is one.
pub uninterp spec fn ss58_decoded(s: Seq<char>) -> Option<(Seq<u8>, u16)>;

/// The SS58 text of an account under an address prefix.
pub uninterp spec fn ss58_text(id: Seq<u8>, prefix: u16) -> Seq<char>;

/// The ed25519 public key of a 32-byte secret key.
pub uninterp spec fn ed25519_public_of(secret: Seq<u8>) -> Seq<u8>;

/// Whether 32 bytes are the encoding of a point, and so a usable public key.
pub uninterp spec fn ed25519_point_ok(public: Seq<u8>) -> bool;

/// The (deterministic) ed25519 signature of a message under a secret key.
pub uninterp spec fn ed25519_signature(secret: Seq<u8>, msg: Seq<u8>) -> Seq<u8>;

/// Whether a signature of a message verifies under a public key.
pub uninterp spec fn ed25519_accepts(public: Seq<u8>, msg: Seq<u8>, sig: Seq<u8>) -> bool;

/// The standard base64 text of some bytes.
pub uninterp spec fn base64_text(b: Seq<u8>) -> Seq<char>;

/// The bytes that a standard base64 text decodes to, if it is valid.
pub uninterp spec fn base64_bytes(s: Seq<char>) -> Option<Seq<u8>>;

/// Relies on sp_core's `Ss58Codec::from_string_with_version` for `AccountId32`,
/// which for that type is `from_ss58check_with_version`: the 32-byte account
/// and the address prefix of a valid SS58 text, an error for any other text.
#[verifier::external_body]
pub(crate) fn ss58_decode(s: &str) -> (r: Option<([u8; 32], u16)>)
    ensures
        match r {
            Some((id, prefix)) => ss58_decoded(s@) == Some((id@, prefix)),
            None => ss58_decoded(s@) is None,
        },
{
    match <sp_core::crypto::AccountId32 as sp_core::crypto::Ss58Codec>::from_string_with_version(s) {
        Ok((id, format)) => Some((id.into(), u16::from(format))),
        Err(_) => None,
    }
}

/// Relies on sp_core's `Ss58Codec::to_ss58check_with_version`: the base-58
/// text of prefix, account and checksum, which `from_ss58check_with_version`
/// decodes back for every prefix that is not reserved (46 and 47).
#[verifier::external_body]
pub(crate) fn ss58_encode(id: &[u8; 32], prefix: u8) -> (r: String)
    ensures
        r@ == ss58_text(id@, prefix as u16),
        r@.len() > 0,
        forall|i: int| 0 <= i < r@.len() ==> is_base58_char(#[trigger] r@[i]),
        prefix != 46 && prefix != 47 ==> ss58_decoded(r@) == Some((id@, prefix as u16)),
{
    let format = sp_core::crypto::Ss58AddressFormat::custom(u16::from(prefix));
    sp_core::crypto::Ss58Codec::to_ss58check_with_version(
        &sp_core::crypto::AccountId32::new(*id),
        format,
    )
}

/// Relies on ed25519_dalek's `SigningKey::from_bytes` and `verifying_key`:
/// the public key of a secret key, which is always a valid point.
#[verifier::external_body]
pub(crate) fn derive_public(secret: &[u8; 32]) -> (r: [u8; 32])
    ensures
        r@ == ed25519_public_of(secret@),
        ed25519_point_ok(r@),
{
    ed25519_dalek::SigningKey::from_bytes(secret).verifying_key().to_bytes()
}

/// Relies on ed25519_dalek's `VerifyingKey::from_bytes`, which accepts exactly
/// the bytes that decompress to a point.
#[verifier::external_body]
pub(crate) fn public_key_valid(public: &[u8; 32]) -> (r: bool)
    ensures
        r == ed25519_point_ok(public@),
{
    ed25519_dalek::VerifyingKey::from_bytes(public).is_ok()
}

/// Relies on ed25519_dalek's `Signer::sign` for `SigningKey`: a deterministic
/// signature, which verifies under the public key of the same secret key.
#[verifier::external_body]
pub(crate) fn sign_message(secret: &[u8; 32], msg: &[u8]) -> (r: [u8; 64])
    ensures
        r@ == ed25519_signature(secret@, msg@),
        ed25519_accepts(ed25519_public_of(secret@), msg@, r@),
{
    let key = ed25519_dalek::SigningKey::from_bytes(secret);
    ed25519_dalek::Signer::sign(&key, msg).to_bytes()
}

/// Relies on ed25519_dalek's `VerifyingKey::from_bytes` and `Verifier::verify`:
/// whether the signature of the message verifies under the public key.
#[verifier::external_body]
pub(crate) fn verify_message(public: &[u8; 32], msg: &[u8], sig: &[u8; 64]) -> (r: bool)
    ensures
        r == ed25519_accepts(public@, msg@, sig@),
{
    match ed25519_dalek::VerifyingKey::from_bytes(public) {
        Ok(key) => {
            let sig = ed25519_dalek::Signature::from_bytes(sig);
            ed25519_dalek::Verifier::verify(&key, msg, &sig).is_ok()
        },
        Err(_) => false,
    }
}

/// Relies on base64's `encode`: the standard, padded base64 text of the bytes.
#[verifier::external_body]
pub(crate) fn base64_encode(b: &[u8]) -> (r: String)
    ensures
        r@ == base64_text(b@),
{
    base64::encode(b)
}

/// Relies on base64's `decode`: the bytes of a valid standard base64 text.
#[verifier::external_body]
pub(crate) fn base64_decode(s: &str) -> (r: Option<Vec<u8>>)
    ensures
        match r {
            Some(v) => base64_bytes(s@) == Some(v@),
            None => base64_bytes(s@) is None,
        },
{
    base64::decode(s).ok()
}

/// Relies on rand's `OsRng` through `RngCore::try_fill_bytes`: 32 bytes from
/// the operating system's secure random source, or nothing where it fails.
#[verifier::external_body]
pub(crate) fn os_random_32() -> (r: Option<[u8; 32]>) {
    let mut bytes = [0u8; 32];
    match rand::RngCore::try_fill_bytes(&mut rand::rngs::OsRng, &mut bytes) {
        Ok(()) => Some(bytes),
        Err(_) => None,
    }
}

} // verus!
