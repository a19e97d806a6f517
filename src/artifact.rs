//! The signed binary allowlist: network byte, nonce, accounts and signature.

use vstd::prelude::*;
use crate::canonical::{canon_lines, canonical, ids_view, line_entry, split_lines, trim_start, trimmed};
use crate::error::LedgerError;
use crate::keys::SigningKeyPair;
use crate::network::{Network, tag_of};
use crate::primitives::{
    ed25519_accepts, ed25519_signature, is_base58_char, sign_message, ss58_encode,
    ss58_text, verify_message,
};

verus! {

/// Bytes before the accounts: the network byte and the nonce.
pub const HEADER_LEN: usize = 5;

/// Bytes of the signature at the end of an artifact.
pub const SIGNATURE_LEN: usize = 64;

/// Bytes of one account.
pub const ACCOUNT_LEN: usize = 32;

/// The little-endian bytes of a nonce.
pub open spec fn le_bytes(x: u32) -> Seq<u8> {
    seq![(x & 0xff) as u8, ((x >> 8u32) & 0xff) as u8, ((x >> 16u32) & 0xff) as u8, ((x >> 24u32) & 0xff) as u8]
}

/// The nonce of four little-endian bytes.
pub open spec fn nonce_of(b: Seq<u8>) -> u32 {
    (b[0] as u32) | ((b[1] as u32) << 8u32) | ((b[2] as u32) << 16u32) | ((b[3] as u32) << 24u32)
}

/// The accounts one after the other.
pub open spec fn flatten_ids(ids: Seq<Seq<u8>>) -> Seq<u8>
    decreases ids.len(),
{
    if ids.len() == 0 {
        Seq::empty()
    } else {
        flatten_ids(ids.drop_last()) + ids.last()
    }
}

/// Bytes cut into consecutive 32-byte accounts.
pub open spec fn chunks(b: Seq<u8>) -> Seq<Seq<u8>>
    decreases b.len(),
{
    if b.len() < 32 {
        Seq::empty()
    } else {
        chunks(b.take(b.len() - 32)).push(b.subrange(b.len() - 32, b.len() as int))
    }
}

/// The bytes that are signed: network byte, nonce, then the accounts.
pub open spec fn payload(ids: Seq<Seq<u8>>, tag: u8, nonce: u32) -> Seq<u8> {
    seq![tag] + le_bytes(nonce) + flatten_ids(ids)
}

/// The artifact: the payload followed by its signature.
pub open spec fn signed_artifact(ids: Seq<Seq<u8>>, tag: u8, nonce: u32, secret: Seq<u8>) -> Seq<u8> {
    payload(ids, tag, nonce) + ed25519_signature(secret, payload(ids, tag, nonce))
}

/// What inspecting an artifact for the network `tag` under a public key
/// gives: its nonce and accounts, or the first check that fails.
pub open spec fn inspected(a: Seq<u8>, tag: u8, public: Seq<u8>) -> Result<(u32, Seq<Seq<u8>>), LedgerError> {
    if a.len() < HEADER_LEN + SIGNATURE_LEN {
        Err(LedgerError::TruncatedArtifact { actual: a.len() as usize })
    } else if a[0] != tag {
        Err(LedgerError::NetworkMismatch { expected: tag, found: a[0] as u16, line: None })
    } else if !ed25519_accepts(public, a.take(a.len() - 64), a.skip(a.len() - 64)) {
        Err(LedgerError::InvalidSignature)
    } else if (a.len() - 69) % 32 != 0 {
        Err(LedgerError::MalformedPayload)
    } else {
        Ok((nonce_of(a.subrange(1, 5)), chunks(a.subrange(5, a.len() - 64))))
    }
}

/// The textual allowlist of some accounts: one address per line.
pub open spec fn rendered(ids: Seq<Seq<u8>>, tag: u8) -> Seq<char>
    decreases ids.len(),
{
    if ids.len() == 0 {
        Seq::empty()
    } else {
        rendered(ids.drop_last(), tag) + ss58_text(ids.last(), tag as u16) + seq!['\n']
    }
}

/// An address prefix that the address codec refuses to decode.
pub open spec fn is_reserved_prefix(tag: u8) -> bool {
    tag == 46 || tag == 47
}

/// Signing is deterministic: two artifacts signed from the same accounts,
/// network, nonce and secret key are the same bytes, since `sign` returns
/// `signed_artifact` of exactly those inputs and an ed25519 signature depends
/// on the key and the message alone.
pub proof fn lemma_signing_is_deterministic(
    ids: Seq<Seq<u8>>,
    tag: u8,
    nonce: u32,
    secret: Seq<u8>,
    first: Seq<u8>,
    second: Seq<u8>,
)
    requires
        first == signed_artifact(ids, tag, nonce, secret),
        second == signed_artifact(ids, tag, nonce, secret),
    ensures
        first == second,
{
}

/// The artifact `a` with bit `bit` of byte `i` flipped.
pub open spec fn flip_bit(a: Seq<u8>, i: int, bit: u8) -> Seq<u8> {
    a.update(i, a[i] ^ (1u8 << bit))
}

/// Tampering with any bit after the network byte of an artifact leaves only
/// two outcomes: inspection fails with `InvalidSignature`, or ed25519 accepts
/// the tampered signature over the tampered payload. No other error and no
/// other account list is reached without that signature check.
pub proof fn lemma_tampering_needs_valid_signature(
    a: Seq<u8>,
    i: int,
    bit: u8,
    tag: u8,
    public: Seq<u8>,
)
    requires
        a.len() >= HEADER_LEN + SIGNATURE_LEN,
        a[0] == tag,
        1 <= i < a.len(),
        bit < 8,
    ensures
        inspected(flip_bit(a, i, bit), tag, public) == Err::<(u32, Seq<Seq<u8>>), LedgerError>(
            LedgerError::InvalidSignature,
        ) || ed25519_accepts(
            public,
            flip_bit(a, i, bit).take(a.len() - 64),
            flip_bit(a, i, bit).skip(a.len() - 64),
        ),
{
    let t = flip_bit(a, i, bit);
    assert(t.len() == a.len());
    assert(t[0] == a[0]);
}

/// A verified artifact: its nonce and its accounts, in order.
#[derive(Clone, Debug, PartialEq, Eq)]
pub struct VerifiedAllowlist {
    pub nonce: u32,
    pub accounts: Vec<[u8; 32]>,
}

proof fn lemma_flatten_len(ids: Seq<Seq<u8>>)
    requires
        forall|i: int| 0 <= i < ids.len() ==> (#[trigger] ids[i]).len() == 32,
    ensures
        flatten_ids(ids).len() % 32 == 0,
        flatten_ids(ids).len() >= 32 * ids.len(),
    decreases ids.len(),
{
    if ids.len() > 0 {
        lemma_flatten_len(ids.drop_last());
    }
}

proof fn lemma_chunks_flatten(ids: Seq<Seq<u8>>)
    requires
        forall|i: int| 0 <= i < ids.len() ==> (#[trigger] ids[i]).len() == 32,
    ensures
        chunks(flatten_ids(ids)) == ids,
    decreases ids.len(),
{
    if ids.len() > 0 {
        let f = flatten_ids(ids);
        let prev = ids.drop_last();
        lemma_chunks_flatten(prev);
        assert(f.take(f.len() - 32) =~= flatten_ids(prev));
        assert(f.subrange(f.len() - 32, f.len() as int) =~= ids.last());
        assert(chunks(f) =~= ids);
    }
}

proof fn lemma_nonce_round_trip(x: u32)
    ensures
        nonce_of(le_bytes(x)) == x,
{
    let b = le_bytes(x);
    assert(((x & 0xff) as u8 as u32) | ((((x >> 8u32) & 0xff) as u8 as u32) << 8u32) | ((((x
        >> 16u32) & 0xff) as u8 as u32) << 16u32) | ((((x >> 24u32) & 0xff) as u8 as u32)
        << 24u32) == x) by (bit_vector);
}

/// Appends the bytes of `b` to `out`.
pub(crate) fn push_all(out: &mut Vec<u8>, b: &[u8])
    ensures
        final(out)@ == old(out)@ + b@,
{
    let mut i: usize = 0;
    while i < b.len()
        invariant
            i <= b@.len(),
            out@ == old(out)@ + b@.take(i as int),
        decreases b@.len() - i,
    {
        out.push(b[i]);
        i = i + 1;
        assert(b@.take(i as int) =~= b@.take(i - 1).push(b@[i - 1]));
    }
    assert(b@.take(i as int) =~= b@);
}

/// The bytes that are signed for these accounts, network and nonce.
pub fn build_payload(accounts: &Vec<[u8; 32]>, network: Network, nonce: u32) -> (r: Vec<u8>)
    ensures
        r@ == payload(ids_view(accounts@), tag_of(network), nonce),
{
    let mut out: Vec<u8> = Vec::new();
    out.push(network.to_byte());
    out.push((nonce & 0xff) as u8);
    out.push(((nonce >> 8u32) & 0xff) as u8);
    out.push(((nonce >> 16u32) & 0xff) as u8);
    out.push(((nonce >> 24u32) & 0xff) as u8);
    assert(out@ =~= seq![tag_of(network)] + le_bytes(nonce));
    let ghost head = out@;
    let mut i: usize = 0;
    while i < accounts.len()
        invariant
            i <= accounts@.len(),
            out@ == head + flatten_ids(ids_view(accounts@).take(i as int)),
        decreases accounts@.len() - i,
    {
        push_all(&mut out, accounts[i].as_slice());
        i = i + 1;
        assert(ids_view(accounts@).take(i as int).drop_last() =~= ids_view(accounts@).take(i - 1));
    }
    assert(ids_view(accounts@).take(i as int) =~= ids_view(accounts@));
    out
}

/// Signs the accounts for a network under a nonce: the payload followed by
/// its ed25519 signature. The same inputs always give the same bytes, and
/// the artifact inspects back to the nonce and the accounts.
pub fn sign(accounts: &Vec<[u8; 32]>, network: Network, nonce: u32, keypair: &SigningKeyPair) -> (r: Vec<u8>)
    requires
        keypair.wf(),
    ensures
        r@ == signed_artifact(ids_view(accounts@), tag_of(network), nonce, keypair.secret@),
        inspected(r@, tag_of(network), keypair.public@) == Ok::<(u32, Seq<Seq<u8>>), LedgerError>((nonce, ids_view(accounts@))),
        r@.len() >= HEADER_LEN + SIGNATURE_LEN,
        r@[0] == tag_of(network),
        forall|other: u8, public: Seq<u8>|
            other != tag_of(network) ==> #[trigger] inspected(r@, other, public) == Err::<
                (u32, Seq<Seq<u8>>),
                LedgerError,
            >(LedgerError::NetworkMismatch { expected: other, found: tag_of(network) as u16, line: None }),
{
    let mut out = build_payload(accounts, network, nonce);
    let ghost p = out@;
    let sig = sign_message(&keypair.secret, out.as_slice());
    push_all(&mut out, sig.as_slice());
    proof {
        let ids = ids_view(accounts@);
        assert forall|i: int| 0 <= i < ids.len() implies (#[trigger] ids[i]).len() == 32 by {}
        lemma_flatten_len(ids);
        lemma_chunks_flatten(ids);
        lemma_nonce_round_trip(nonce);
        let a = out@;
        assert(a.take(a.len() - 64) =~= p);
        assert(a.skip(a.len() - 64) =~= sig@);
        assert(a.subrange(1, 5) =~= le_bytes(nonce));
        assert(a.subrange(5, a.len() - 64) =~= flatten_ids(ids));
    }
    out
}

/// Signs as `sign` does, after checking that `expected_public` is the
/// public key of the key pair.
pub fn sign_confirmed(
    accounts: &Vec<[u8; 32]>,
    network: Network,
    nonce: u32,
    keypair: &SigningKeyPair,
    expected_public: &[u8; 32],
) -> (r: Result<Vec<u8>, LedgerError>)
    requires
        keypair.wf(),
    ensures
        match r {
            Ok(a) => expected_public@ == keypair.public@ && a@ == signed_artifact(ids_view(accounts@), tag_of(network), nonce, keypair.secret@),
            Err(e) => expected_public@ != keypair.public@ && e == LedgerError::KeyMismatch,
        },
{
    let mut i: usize = 0;
    while i < 32
        invariant
            i <= 32,
            forall|j: int| 0 <= j < i ==> expected_public@[j] == keypair.public@[j],
        decreases 32 - i,
    {
        if expected_public[i] != keypair.public[i] {
            return Err(LedgerError::KeyMismatch);
        }
        i = i + 1;
    }
    assert(expected_public@ =~= keypair.public@);
    Ok(sign(accounts, network, nonce, keypair))
}

/// The bytes `from..from + 32` of `b`.
fn read_account(b: &[u8], from: usize) -> (r: [u8; 32])
    requires
        from + 32 <= b@.len(),
    ensures
        r@ == b@.subrange(from as int, from + 32),
{
    let mut r: [u8; 32] = [0u8; 32];
    let mut i: usize = 0;
    while i < 32
        invariant
            i <= 32,
            from + 32 <= b@.len(),
            b@.len() == b.len(),
            r@.len() == 32,
            forall|j: int| 0 <= j < i ==> r@[j] == b@[from + j],
        decreases 32 - i,
    {
        r.set(i, b[from + i]);
        i = i + 1;
    }
    assert(r@ =~= b@.subrange(from as int, from + 32));
    r
}

/// The bytes `from..from + 64` of `b`.
fn read_signature(b: &[u8], from: usize) -> (r: [u8; 64])
    requires
        from + 64 <= b@.len(),
    ensures
        r@ == b@.subrange(from as int, from + 64),
{
    let mut r: [u8; 64] = [0u8; 64];
    let mut i: usize = 0;
    while i < 64
        invariant
            i <= 64,
            from + 64 <= b@.len(),
            b@.len() == b.len(),
            r@.len() == 64,
            forall|j: int| 0 <= j < i ==> r@[j] == b@[from + j],
        decreases 64 - i,
    {
        r.set(i, b[from + i]);
        i = i + 1;
    }
    assert(r@ =~= b@.subrange(from as int, from + 64));
    r
}

/// Checks an artifact for the expected network under a public key: its
/// length, its network byte, then its signature before anything else is
/// read, then the account area; on success its nonce and accounts.
pub fn verify_artifact(artifact: &[u8], network: Network, public: &[u8; 32]) -> (r: Result<
    VerifiedAllowlist,
    LedgerError,
>)
    ensures
        match r {
            Ok(v) => inspected(artifact@, tag_of(network), public@) == Ok::<
                (u32, Seq<Seq<u8>>),
                LedgerError,
            >((v.nonce, ids_view(v.accounts@))),
            Err(e) => inspected(artifact@, tag_of(network), public@) == Err::<
                (u32, Seq<Seq<u8>>),
                LedgerError,
            >(e),
        },
{
    let n = artifact.len();
    if n < HEADER_LEN + SIGNATURE_LEN {
        return Err(LedgerError::TruncatedArtifact { actual: n });
    }
    let tag = network.to_byte();
    if artifact[0] != tag {
        return Err(LedgerError::NetworkMismatch { expected: tag, found: artifact[0] as u16, line: None });
    }
    let msg = vstd::slice::slice_subrange(artifact, 0, n - SIGNATURE_LEN);
    let sig = read_signature(artifact, n - SIGNATURE_LEN);
    assert(msg@ =~= artifact@.take(n - 64));
    assert(sig@ =~= artifact@.skip(n - 64));
    if !verify_message(public, msg, &sig) {
        return Err(LedgerError::InvalidSignature);
    }
    if (n - HEADER_LEN - SIGNATURE_LEN) % ACCOUNT_LEN != 0 {
        return Err(LedgerError::MalformedPayload);
    }
    let nonce: u32 = (artifact[1] as u32) | ((artifact[2] as u32) << 8u32) | ((artifact[3] as u32)
        << 16u32) | ((artifact[4] as u32) << 24u32);
    let end = n - SIGNATURE_LEN;
    let ghost body = artifact@.subrange(5, end as int);
    let mut accounts: Vec<[u8; 32]> = Vec::new();
    let mut pos: usize = HEADER_LEN;
    assert(body.take(0) =~= Seq::<u8>::empty());
    assert(ids_view(accounts@) =~= Seq::<Seq<u8>>::empty());
    while pos < end
        invariant
            5 <= pos <= end,
            end == artifact@.len() - 64,
            body == artifact@.subrange(5, end as int),
            (end - pos) % 32 == 0,
            chunks(body.take(pos - 5)) == ids_view(accounts@),
        decreases end - pos,
    {
        let id = read_account(artifact, pos);
        let ghost before = accounts@;
        let ghost upto = body.take(pos + 32 - 5);
        assert(upto.take(upto.len() - 32) =~= body.take(pos - 5));
        assert(upto.subrange(upto.len() - 32, upto.len() as int) =~= id@);
        accounts.push(id);
        assert(ids_view(accounts@) =~= ids_view(before).push(id@));
        pos = pos + ACCOUNT_LEN;
    }
    assert(body.take(end - 5) =~= body);
    assert(artifact@.subrange(1, 5) =~= seq![artifact@[1], artifact@[2], artifact@[3], artifact@[4]]);
    Ok(VerifiedAllowlist { nonce, accounts })
}

/// Characters without a line break extend the last line of a text.
proof fn lemma_split_lines_append(s: Seq<char>, w: Seq<char>)
    requires
        forall|i: int| 0 <= i < w.len() ==> w[i] != '\n',
    ensures
        split_lines(s + w) == split_lines(s).update(
            split_lines(s).len() - 1,
            split_lines(s).last() + w,
        ),
    decreases w.len(),
{
    crate::canonical::lemma_split_lines_nonempty(s);
    if w.len() == 0 {
        assert(s + w =~= s);
        assert(split_lines(s).last() + w =~= split_lines(s).last());
        assert(split_lines(s).update(split_lines(s).len() - 1, split_lines(s).last())
            =~= split_lines(s));
    } else {
        lemma_split_lines_append(s, w.drop_last());
        assert((s + w).drop_last() =~= s + w.drop_last());
        assert((split_lines(s).last() + w.drop_last()).push(w.last()) =~= split_lines(s).last()
            + w);
        assert(split_lines(s + w) =~= split_lines(s).update(
            split_lines(s).len() - 1,
            split_lines(s).last() + w,
        ));
    }
}

/// A non-empty word of base-58 digits is its own trimmed form.
proof fn lemma_base58_trimmed(w: Seq<char>)
    requires
        w.len() > 0,
        forall|i: int| 0 <= i < w.len() ==> is_base58_char(#[trigger] w[i]),
    ensures
        trimmed(w) == w,
{
    assert(is_base58_char(w[0]));
    assert(is_base58_char(w[w.len() - 1]));
    assert(trim_start(w) == w);
}

/// The textual allowlist of some accounts, one address per line; where the
/// network's prefix is not reserved, it canonicalizes back to the accounts.
pub fn render(accounts: &Vec<[u8; 32]>, network: Network) -> (r: String)
    ensures
        r@ == rendered(ids_view(accounts@), tag_of(network)),
        !is_reserved_prefix(tag_of(network)) ==> canonical(r@, tag_of(network)) == Ok::<
            Seq<Seq<u8>>,
            LedgerError,
        >(ids_view(accounts@)),
{
    let tag = network.to_byte();
    let ghost ids = ids_view(accounts@);
    let mut out = String::new();
    let ghost mut lines: Seq<Seq<char>> = Seq::empty();
    let newline = "\n";
    proof {
        reveal_strlit("\n");
        assert(ids.take(0) =~= Seq::<Seq<u8>>::empty());
    }
    let mut i: usize = 0;
    while i < accounts.len()
        invariant
            i <= accounts@.len(),
            ids == ids_view(accounts@),
            tag == tag_of(network),
            newline@ == seq!['\n'],
            out@ == rendered(ids.take(i as int), tag),
            split_lines(out@) == lines.push(Seq::empty()),
            !is_reserved_prefix(tag) ==> canon_lines(lines, tag) == Ok::<
                Seq<Seq<u8>>,
                LedgerError,
            >(ids.take(i as int)),
        decreases accounts@.len() - i,
    {
        let word = ss58_encode(&accounts[i], tag);
        let ghost before = out@;
        let ghost w = word@;
        out.append(word.as_str());
        out.append(newline);
        proof {
            assert(ids.take(i + 1).drop_last() =~= ids.take(i as int));
            assert(out@ =~= rendered(ids.take(i + 1), tag));
            assert forall|j: int| 0 <= j < w.len() implies w[j] != '\n' by {
                assert(is_base58_char(w[j]));
            }
            lemma_split_lines_append(before, w);
            assert(lines.push(Seq::empty()).update(lines.len() as int, Seq::empty() + w)
                =~= lines.push(w));
            assert((before + w + seq!['\n']).drop_last() =~= before + w);
            assert(out@ =~= before + w + seq!['\n']);
            let prev = lines;
            lines = lines.push(w);
            assert(lines.drop_last() =~= prev);
            if !is_reserved_prefix(tag) {
                lemma_base58_trimmed(w);
                assert(is_base58_char(w[0]));
                assert(line_entry(w, lines.len(), tag) == Ok::<Option<Seq<u8>>, LedgerError>(
                    Some(accounts@[i as int]@),
                ));
                assert(ids.take(i as int).push(accounts@[i as int]@) =~= ids.take(i + 1));
            }
        }
        i = i + 1;
    }
    proof {
        assert(ids.take(i as int) =~= ids);
        let all = lines.push(Seq::empty());
        assert(all.drop_last() =~= lines);
        assert(trimmed(Seq::<char>::empty()) == Seq::<char>::empty());
    }
    out
}

/// Inspects an artifact as `verify_artifact` does and, on success, gives the
/// textual allowlist of its accounts.
pub fn inspect(artifact: &[u8], network: Network, public: &[u8; 32]) -> (r: Result<String, LedgerError>)
    ensures
        match r {
            Ok(text) => inspected(artifact@, tag_of(network), public@) is Ok && text@ == rendered(
                inspected(artifact@, tag_of(network), public@)->Ok_0.1,
                tag_of(network),
            ) && (!is_reserved_prefix(tag_of(network)) ==> canonical(text@, tag_of(network))
                == Ok::<Seq<Seq<u8>>, LedgerError>(
                inspected(artifact@, tag_of(network), public@)->Ok_0.1,
            )),
            Err(e) => inspected(artifact@, tag_of(network), public@) == Err::<
                (u32, Seq<Seq<u8>>),
                LedgerError,
            >(e),
        },
{
    match verify_artifact(artifact, network, public) {
        Ok(v) => Ok(render(&v.accounts, network)),
        Err(e) => Err(e),
    }
}

} // verus!
