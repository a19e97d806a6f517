//! The secret key file (88 bytes) and the armored public key file.

use vstd::prelude::*;
use crate::artifact::push_all;
use crate::error::LedgerError;
use crate::keys::SigningKeyPair;
use crate::network::{Network, tag_of, network_of, display_name, KUSAMA_TAG, POLKADOT_TAG};
use crate::primitives::{
    base64_bytes, base64_decode, base64_encode, base64_text, derive_public, ed25519_point_ok,
    ed25519_public_of, public_key_valid,
};

verus! {

/// Length of a secret key file.
pub const SECRET_FILE_LEN: usize = 88;

/// The format version of both key files.
pub const KEY_VERSION: u16 = 1;

/// The token that starts a secret key file: "Ledgeracio Secret Key".
pub open spec fn key_magic() -> Seq<u8> {
    seq![76u8, 101, 100, 103, 101, 114, 97, 99, 105, 111, 32, 83, 101, 99, 114, 101, 116, 32, 75, 101, 121]
}

/// The secret key file of a key pair bound to the network `tag`.
pub open spec fn secret_file_bytes(secret: Seq<u8>, public: Seq<u8>, tag: u8) -> Seq<u8> {
    key_magic() + seq![1u8, 0u8] + seq![tag] + secret + public
}

/// What a secret key file holds: secret key, public key and network byte,
/// or the first check that fails.
pub open spec fn secret_file_read(b: Seq<u8>) -> Result<(Seq<u8>, Seq<u8>, u8), LedgerError> {
    if b.len() != 88 {
        Err(LedgerError::BadKeyLength { expected: 88, actual: b.len() as usize })
    } else if b.take(21) != key_magic() {
        Err(LedgerError::InvalidMagic)
    } else if b[21] != 1 || b[22] != 0 {
        Err(LedgerError::UnsupportedVersion { found: Some(((b[21] as u16) | ((b[22] as u16) << 8u16)) as u16) })
    } else if !ed25519_point_ok(b.subrange(56, 88)) {
        Err(LedgerError::InvalidKeyEncoding)
    } else if b.subrange(56, 88) != ed25519_public_of(b.subrange(24, 56)) {
        Err(LedgerError::KeyMismatch)
    } else {
        Ok((b.subrange(24, 56), b.subrange(56, 88), b[23]))
    }
}

/// Reading the secret key file written for a key pair and a network gives
/// back that key pair and that network.
pub proof fn lemma_secret_file_round_trip(kp: SigningKeyPair, tag: u8)
    requires
        kp.wf(),
    ensures
        secret_file_read(secret_file_bytes(kp.secret@, kp.public@, tag)) == Ok::<
            (Seq<u8>, Seq<u8>, u8),
            LedgerError,
        >((kp.secret@, kp.public@, tag)),
{
    let b = secret_file_bytes(kp.secret@, kp.public@, tag);
    assert(kp.secret@.len() == 32);
    assert(kp.public@.len() == 32);
    assert(b.len() == 88);
    assert(b.take(21) =~= key_magic());
    assert(b[21] == 1 && b[22] == 0 && b[23] == tag);
    assert(b.subrange(24, 56) =~= kp.secret@);
    assert(b.subrange(56, 88) =~= kp.public@);
}

/// The secret key file of a key pair bound to a network.
pub fn secret_key_file(keypair: &SigningKeyPair, network: Network) -> (r: Vec<u8>)
    ensures
        r@ == secret_file_bytes(keypair.secret@, keypair.public@, tag_of(network)),
        r@.len() == SECRET_FILE_LEN,
{
    let magic: [u8; 21] = [76u8, 101, 100, 103, 101, 114, 97, 99, 105, 111, 32, 83, 101, 99, 114, 101, 116, 32, 75, 101, 121];
    let mut out: Vec<u8> = Vec::new();
    push_all(&mut out, magic.as_slice());
    out.push(1u8);
    out.push(0u8);
    out.push(network.to_byte());
    push_all(&mut out, keypair.secret.as_slice());
    push_all(&mut out, keypair.public.as_slice());
    assert(magic@ =~= key_magic());
    assert(out@ =~= secret_file_bytes(keypair.secret@, keypair.public@, tag_of(network)));
    out
}

/// Reads a secret key file: exact length, magic token, version 1, then the
/// public key must decode and belong to the secret key.
pub fn read_secret(b: &[u8]) -> (r: Result<(SigningKeyPair, Network), LedgerError>)
    ensures
        match r {
            Ok((kp, network)) => kp.wf() && network == network_of(b@[23]) && secret_file_read(b@)
                == Ok::<(Seq<u8>, Seq<u8>, u8), LedgerError>((kp.secret@, kp.public@, tag_of(network))),
            Err(e) => secret_file_read(b@) == Err::<(Seq<u8>, Seq<u8>, u8), LedgerError>(e),
        },
{
    if b.len() != SECRET_FILE_LEN {
        return Err(LedgerError::BadKeyLength { expected: SECRET_FILE_LEN, actual: b.len() });
    }
    let magic: [u8; 21] = [76u8, 101, 100, 103, 101, 114, 97, 99, 105, 111, 32, 83, 101, 99, 114, 101, 116, 32, 75, 101, 121];
    assert(magic@ =~= key_magic());
    let mut i: usize = 0;
    while i < 21
        invariant
            i <= 21,
            b@.len() == 88,
            magic@ == key_magic(),
            forall|j: int| 0 <= j < i ==> b@[j] == key_magic()[j],
        decreases 21 - i,
    {
        if b[i] != magic[i] {
            assert(b@.take(21)[i as int] != key_magic()[i as int]);
            return Err(LedgerError::InvalidMagic);
        }
        i = i + 1;
    }
    assert(b@.take(21) =~= key_magic());
    if b[21] != 1 || b[22] != 0 {
        let found: u16 = (b[21] as u16) | ((b[22] as u16) << 8u16);
        return Err(LedgerError::UnsupportedVersion { found: Some(found) });
    }
    let mut secret: [u8; 32] = [0u8; 32];
    let mut public: [u8; 32] = [0u8; 32];
    let mut k: usize = 0;
    while k < 32
        invariant
            k <= 32,
            b@.len() == 88,
            secret@.len() == 32,
            public@.len() == 32,
            forall|j: int| 0 <= j < k ==> secret@[j] == b@[24 + j] && public@[j] == b@[56 + j],
        decreases 32 - k,
    {
        secret.set(k, b[24 + k]);
        public.set(k, b[56 + k]);
        k = k + 1;
    }
    assert(secret@ =~= b@.subrange(24, 56));
    assert(public@ =~= b@.subrange(56, 88));
    if !public_key_valid(&public) {
        return Err(LedgerError::InvalidKeyEncoding);
    }
    let derived = derive_public(&secret);
    let mut m: usize = 0;
    while m < 32
        invariant
            m <= 32,
            b@.len() == 88,
            derived@ == ed25519_public_of(b@.subrange(24, 56)),
            public@ == b@.subrange(56, 88),
            b@.take(21) == key_magic(),
            b@[21] == 1 && b@[22] == 0,
            ed25519_point_ok(b@.subrange(56, 88)),
            forall|j: int| 0 <= j < m ==> derived@[j] == public@[j],
        decreases 32 - m,
    {
        if derived[m] != public[m] {
            assert(derived@[m as int] != public@[m as int]);
            return Err(LedgerError::KeyMismatch);
        }
        m = m + 1;
    }
    assert(derived@ =~= public@);
    let network = Network::from_byte(b[23]);
    Ok((SigningKeyPair { secret, public }, network))
}

/// An ASCII decimal digit.
pub open spec fn is_digit(c: char) -> bool {
    '0' <= c && c <= '9'
}

/// An ASCII letter.
pub open spec fn is_alpha(c: char) -> bool {
    ('a' <= c && c <= 'z') || ('A' <= c && c <= 'Z')
}

/// A character of a base64 text other than its padding.
pub open spec fn is_base64_body(c: char) -> bool {
    is_digit(c) || is_alpha(c) || c == '/' || c == '+'
}

/// Whether `c` belongs to the character class `class`: digits (0), letters
/// (1), or base64 characters (any other).
pub open spec fn in_class(c: char, class: u8) -> bool {
    if class == 0 {
        is_digit(c)
    } else if class == 1 {
        is_alpha(c)
    } else {
        is_base64_body(c)
    }
}

/// The end of the longest run of characters of `class` that starts at `i`.
pub open spec fn run_end(t: Seq<char>, i: int, class: u8) -> int
    decreases t.len() - i,
{
    if 0 <= i < t.len() && in_class(t[i], class) {
        run_end(t, i + 1, class)
    } else {
        i
    }
}

/// `c` equals the lower-case letter or character `l`, ignoring ASCII case.
pub open spec fn char_eq_ignore_case(c: char, l: char) -> bool {
    c == l || ('a' <= l && l <= 'z' && (c as u32) + 32 == (l as u32))
}

/// `s` equals the lower-case text `lower`, ignoring ASCII case.
pub open spec fn eq_ignore_case(s: Seq<char>, lower: Seq<char>) -> bool {
    s.len() == lower.len() && forall|i: int| 0 <= i < s.len() ==> char_eq_ignore_case(
        #[trigger] s[i],
        lower[i],
    )
}

/// The network byte of a network name in a public key file.
pub open spec fn name_tag(name: Seq<char>) -> Option<u8> {
    if eq_ignore_case(name, "kusama"@) {
        Some(KUSAMA_TAG)
    } else if eq_ignore_case(name, "polkadot"@) {
        Some(POLKADOT_TAG)
    } else {
        None
    }
}

/// The text of a public key file.
pub open spec fn public_file_text(public: Seq<u8>, name: Seq<char>) -> Seq<char> {
    "Ledgeracio version 1 public key for network "@ + name + seq!['\n'] + base64_text(public)
        + seq!['\n']
}

/// What a public key file holds: its public key and network byte, or the
/// first check that fails. The text must read
/// `Ledgeracio version <n> public key for network <name>\n<base64>=\n`.
pub open spec fn public_file_read(t: Seq<char>) -> Result<(Seq<u8>, u8), LedgerError> {
    let a = "Ledgeracio version "@.len() as int;
    let b = run_end(t, a, 0);
    let c = b + " public key for network "@.len();
    let d = run_end(t, c, 1);
    let f = run_end(t, d + 1, 2);
    if !(a <= t.len() && t.take(a) == "Ledgeracio version "@ && b > a && t[a] != '0' && c
        <= t.len() && t.subrange(b, c) == " public key for network "@ && d > c && d < t.len()
        && t[d] == '\n' && f > d + 1 && t.len() == f + 2 && t[f] == '=' && t[f + 1] == '\n') {
        Err(LedgerError::InvalidKeyEncoding)
    } else if t.subrange(a, b) != seq!['1'] {
        Err(LedgerError::UnsupportedVersion { found: None })
    } else {
        match name_tag(t.subrange(c, d)) {
            None => Err(LedgerError::UnknownNetwork),
            Some(tag) => match base64_bytes(t.subrange(d + 1, f + 1)) {
                Some(v) => if v.len() == 32 && ed25519_point_ok(v) {
                    Ok((v, tag))
                } else {
                    Err(LedgerError::InvalidKeyEncoding)
                },
                None => Err(LedgerError::InvalidKeyEncoding),
            },
        }
    }
}

/// The public key file of a public key bound to a named network.
pub fn public_key_file(public: &[u8; 32], network: Network) -> (r: Result<String, LedgerError>)
    ensures
        match r {
            Ok(s) => display_name(tag_of(network)) is Some && s@ == public_file_text(
                public@,
                display_name(tag_of(network))->0,
            ),
            Err(e) => display_name(tag_of(network)) is None && e == LedgerError::UnknownNetwork,
        },
{
    let name = match network.name() {
        Some(name) => name,
        None => {
            return Err(LedgerError::UnknownNetwork);
        },
    };
    let newline = "\n";
    proof {
        reveal_strlit("\n");
    }
    let mut out = String::from_str("Ledgeracio version 1 public key for network ");
    out.append(name);
    out.append(newline);
    let encoded = base64_encode(public.as_slice());
    out.append(encoded.as_str());
    out.append(newline);
    Ok(out)
}

/// Whether the characters of `lit` stand in `t` from `at` on.
fn has_at(t: &str, at: usize, lit: &str) -> (r: bool)
    requires
        at <= t@.len(),
    ensures
        r == (at + lit@.len() <= t@.len() && t@.subrange(at as int, at + lit@.len()) == lit@),
{
    let n = t.unicode_len();
    let m = lit.unicode_len();
    if m > n - at {
        return false;
    }
    let mut i: usize = 0;
    while i < m
        invariant
            i <= m,
            m == lit@.len(),
            n == t@.len(),
            at + m <= n,
            forall|j: int| 0 <= j < i ==> t@[at + j] == lit@[j],
        decreases m - i,
    {
        if t.get_char(at + i) != lit.get_char(i) {
            assert(t@.subrange(at as int, at + m)[i as int] != lit@[i as int]);
            return false;
        }
        i = i + 1;
    }
    assert(t@.subrange(at as int, at + m) =~= lit@);
    true
}

/// Whether `c` belongs to the character class `class`.
fn char_in_class(c: char, class: u8) -> (r: bool)
    ensures
        r == in_class(c, class),
{
    let digit = '0' <= c && c <= '9';
    let alpha = ('a' <= c && c <= 'z') || ('A' <= c && c <= 'Z');
    if class == 0 {
        digit
    } else if class == 1 {
        alpha
    } else {
        digit || alpha || c == '/' || c == '+'
    }
}

/// The end of the longest run of characters of `class` in `t` from `i` on.
fn find_run_end(t: &str, i: usize, class: u8) -> (r: usize)
    requires
        i <= t@.len(),
    ensures
        r as int == run_end(t@, i as int, class),
        i <= r <= t@.len(),
{
    let n = t.unicode_len();
    let mut k: usize = i;
    while k < n && char_in_class(t.get_char(k), class)
        invariant
            i <= k <= n,
            n == t@.len(),
            run_end(t@, i as int, class) == run_end(t@, k as int, class),
        decreases n - k,
    {
        k = k + 1;
    }
    k
}

/// Whether the characters `from..to` of `t` spell the lower-case `lower`,
/// ignoring ASCII case.
fn matches_ignore_case(t: &str, from: usize, to: usize, lower: &str) -> (r: bool)
    requires
        from <= to <= t@.len(),
    ensures
        r == eq_ignore_case(t@.subrange(from as int, to as int), lower@),
{
    let m = lower.unicode_len();
    if to - from != m {
        return false;
    }
    let mut i: usize = 0;
    while i < m
        invariant
            i <= m,
            m == lower@.len(),
            to - from == m,
            to <= t@.len(),
            forall|j: int| 0 <= j < i ==> char_eq_ignore_case(t@[from + j], lower@[j]),
        decreases m - i,
    {
        let c = t.get_char(from + i);
        let l = lower.get_char(i);
        if !(c == l || ('a' <= l && l <= 'z' && (c as u32) + 32 == (l as u32))) {
            assert(!char_eq_ignore_case(t@.subrange(from as int, to as int)[i as int], lower@[i as int]));
            return false;
        }
        i = i + 1;
    }
    assert forall|j: int| 0 <= j < m implies char_eq_ignore_case(
        #[trigger] t@.subrange(from as int, to as int)[j],
        lower@[j],
    ) by {
        assert(t@.subrange(from as int, to as int)[j] == t@[from + j]);
    }
    true
}

/// Reads a public key file: its fixed layout, version 1, a known network
/// name in any case, and a base64 key of 32 bytes that decodes to a point.
pub fn read_public(t: &str) -> (r: Result<([u8; 32], Network), LedgerError>)
    ensures
        match r {
            Ok((public, network)) => public_file_read(t@) == Ok::<(Seq<u8>, u8), LedgerError>(
                (public@, tag_of(network)),
            ),
            Err(e) => public_file_read(t@) == Err::<(Seq<u8>, u8), LedgerError>(e),
        },
{
    let n = t.unicode_len();
    let h1 = "Ledgeracio version ";
    let h2 = " public key for network ";
    let a = h1.unicode_len();
    if a > n || !has_at(t, 0, h1) {
        return Err(LedgerError::InvalidKeyEncoding);
    }
    assert(t@.subrange(0, a as int) =~= t@.take(a as int));
    let b = find_run_end(t, a, 0);
    if b == a || t.get_char(a) == '0' || !has_at(t, b, h2) {
        return Err(LedgerError::InvalidKeyEncoding);
    }
    let c = b + h2.unicode_len();
    let d = find_run_end(t, c, 1);
    if d == c || d >= n || t.get_char(d) != '\n' {
        return Err(LedgerError::InvalidKeyEncoding);
    }
    let f = find_run_end(t, d + 1, 2);
    if f == d + 1 || n - f != 2 || t.get_char(f) != '=' || t.get_char(f + 1) != '\n' {
        return Err(LedgerError::InvalidKeyEncoding);
    }
    if !(b - a == 1 && t.get_char(a) == '1') {
        proof {
            if t@.subrange(a as int, b as int) == seq!['1'] {
                assert(seq!['1'].len() == 1);
                assert(seq!['1'][0] == '1');
                assert(t@.subrange(a as int, b as int)[0] == t@[a as int]);
            }
        }
        return Err(LedgerError::UnsupportedVersion { found: None });
    }
    assert(t@.subrange(a as int, b as int) =~= seq!['1']);
    let network = if matches_ignore_case(t, c, d, "kusama") {
        Network::Kusama
    } else if matches_ignore_case(t, c, d, "polkadot") {
        Network::Polkadot
    } else {
        return Err(LedgerError::UnknownNetwork);
    };
    let data = t.substring_char(d + 1, f + 1);
    let bytes = match base64_decode(data) {
        Some(v) => v,
        None => {
            return Err(LedgerError::InvalidKeyEncoding);
        },
    };
    if bytes.len() != 32 {
        return Err(LedgerError::InvalidKeyEncoding);
    }
    let mut public: [u8; 32] = [0u8; 32];
    let mut k: usize = 0;
    while k < 32
        invariant
            k <= 32,
            bytes@.len() == 32,
            public@.len() == 32,
            forall|j: int| 0 <= j < k ==> public@[j] == bytes@[j],
        decreases 32 - k,
    {
        public.set(k, bytes[k]);
        k = k + 1;
    }
    assert(public@ =~= bytes@);
    if !public_key_valid(&public) {
        return Err(LedgerError::InvalidKeyEncoding);
    }
    Ok((public, network))
}

} // verus!
