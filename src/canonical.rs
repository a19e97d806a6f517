//! The textual allowlist: one address per line, with comments and blank
//! lines, turned into the ordered sequence of accounts it names.

use vstd::prelude::*;
use crate::error::LedgerError;
use crate::network::{Network, tag_of};
use crate::primitives::{ss58_decode, ss58_decoded};

verus! {

/// A character that `str::trim` removes: Unicode `White_Space`.
pub open spec fn is_whitespace(c: char) -> bool {
    ('\u{9}' <= c && c <= '\u{d}') || c == ' ' || c == '\u{85}' || c == '\u{a0}' || c
        == '\u{1680}' || ('\u{2000}' <= c && c <= '\u{200a}') || c == '\u{2028}' || c
        == '\u{2029}' || c == '\u{202f}' || c == '\u{205f}' || c == '\u{3000}'
}

/// `s` without its leading whitespace.
pub open spec fn trim_start(s: Seq<char>) -> Seq<char>
    decreases s.len(),
{
    if s.len() > 0 && is_whitespace(s[0]) {
        trim_start(s.drop_first())
    } else {
        s
    }
}

/// `s` without its trailing whitespace.
pub open spec fn trim_end(s: Seq<char>) -> Seq<char>
    decreases s.len(),
{
    if s.len() > 0 && is_whitespace(s.last()) {
        trim_end(s.drop_last())
    } else {
        s
    }
}

/// `s` without leading and trailing whitespace.
pub open spec fn trimmed(s: Seq<char>) -> Seq<char> {
    trim_end(trim_start(s))
}

/// A trimmed line that holds no entry: empty, or a `;` or `#` comment.
pub open spec fn is_comment(t: Seq<char>) -> bool {
    t.len() == 0 || t[0] == ';' || t[0] == '#'
}

/// The lines of a text: the pieces between its `'\n'` characters.
pub open spec fn split_lines(t: Seq<char>) -> Seq<Seq<char>>
    decreases t.len(),
{
    if t.len() == 0 {
        seq![Seq::empty()]
    } else {
        let prev = split_lines(t.drop_last());
        if t.last() == '\n' {
            prev.push(Seq::empty())
        } else {
            prev.update(prev.len() - 1, prev.last().push(t.last()))
        }
    }
}

/// What the line numbered `lineno` contributes: nothing, one account, or an
/// error naming the line.
pub open spec fn line_entry(line: Seq<char>, lineno: nat, tag: u8) -> Result<
    Option<Seq<u8>>,
    LedgerError,
> {
    let t = trimmed(line);
    if is_comment(t) {
        Ok(None)
    } else {
        match ss58_decoded(t) {
            None => Err(LedgerError::InvalidAddress { line: lineno as usize }),
            Some((id, prefix)) => if prefix == tag as u16 {
                Ok(Some(id))
            } else {
                Err(
                    LedgerError::NetworkMismatch {
                        expected: tag,
                        found: prefix,
                        line: Some(lineno as usize),
                    },
                )
            },
        }
    }
}

/// The accounts of a sequence of lines, numbered from 1, in order; the first
/// failing line decides the error.
pub open spec fn canon_lines(ls: Seq<Seq<char>>, tag: u8) -> Result<Seq<Seq<u8>>, LedgerError>
    decreases ls.len(),
{
    if ls.len() == 0 {
        Ok(Seq::empty())
    } else {
        match canon_lines(ls.drop_last(), tag) {
            Err(e) => Err(e),
            Ok(v) => match line_entry(ls.last(), ls.len(), tag) {
                Err(e) => Err(e),
                Ok(None) => Ok(v),
                Ok(Some(id)) => Ok(v.push(id)),
            },
        }
    }
}

/// The canonical allowlist of a text for the network with wire byte `tag`.
pub open spec fn canonical(text: Seq<char>, tag: u8) -> Result<Seq<Seq<u8>>, LedgerError> {
    canon_lines(split_lines(text), tag)
}

/// The byte sequences of a list of accounts.
pub open spec fn ids_view(v: Seq<[u8; 32]>) -> Seq<Seq<u8>> {
    v.map_values(|a: [u8; 32]| a@)
}

/// A list of accounts, or an error, seen as byte sequences.
pub open spec fn ids_result(r: Result<Vec<[u8; 32]>, LedgerError>) -> Result<
    Seq<Seq<u8>>,
    LedgerError,
> {
    match r {
        Ok(v) => Ok(ids_view(v@)),
        Err(e) => Err(e),
    }
}

/// A text always has at least one line.
pub(crate) proof fn lemma_split_lines_nonempty(t: Seq<char>)
    ensures
        split_lines(t).len() >= 1,
    decreases t.len(),
{
    if t.len() > 0 {
        lemma_split_lines_nonempty(t.drop_last());
    }
}

/// The finished lines of a prefix of a text are the first lines of any longer
/// prefix.
proof fn lemma_split_lines_prefix(t: Seq<char>, k: int, m: int)
    requires
        0 <= k <= m <= t.len(),
    ensures
        split_lines(t.take(m)).len() >= split_lines(t.take(k)).len(),
        split_lines(t.take(k)).drop_last() == split_lines(t.take(m)).take(
            split_lines(t.take(k)).len() - 1,
        ),
    decreases m - k,
{
    lemma_split_lines_nonempty(t.take(k));
    if m == k {
        assert(split_lines(t.take(k)).drop_last() =~= split_lines(t.take(m)).take(
            split_lines(t.take(k)).len() - 1,
        ));
    } else {
        lemma_split_lines_prefix(t, k, m - 1);
        lemma_split_lines_nonempty(t.take(m - 1));
        assert(t.take(m).drop_last() =~= t.take(m - 1));
        let prev = split_lines(t.take(m - 1));
        let j = split_lines(t.take(k)).len() - 1;
        assert(split_lines(t.take(m)).take(j) =~= prev.take(j));
    }
}

/// An error of some first lines is the error of all the lines.
proof fn lemma_canon_error_extends(ls: Seq<Seq<char>>, ms: Seq<Seq<char>>, tag: u8)
    requires
        ls.len() <= ms.len(),
        ls == ms.take(ls.len() as int),
        canon_lines(ls, tag) is Err,
    ensures
        canon_lines(ms, tag) == canon_lines(ls, tag),
    decreases ms.len(),
{
    if ms.len() == ls.len() {
        assert(ls =~= ms);
    } else {
        assert(ls =~= ms.drop_last().take(ls.len() as int));
        lemma_canon_error_extends(ls, ms.drop_last(), tag);
    }
}

/// Whether `c` is whitespace that trimming removes.
pub fn is_whitespace_char(c: char) -> (r: bool)
    ensures
        r == is_whitespace(c),
{
    ('\u{9}' <= c && c <= '\u{d}') || c == ' ' || c == '\u{85}' || c == '\u{a0}' || c
        == '\u{1680}' || ('\u{2000}' <= c && c <= '\u{200a}') || c == '\u{2028}' || c
        == '\u{2029}' || c == '\u{202f}' || c == '\u{205f}' || c == '\u{3000}'
}

/// The bounds of the trimmed part of the characters `a..b` of `text`.
fn trim_range(text: &str, a: usize, b: usize) -> (r: (usize, usize))
    requires
        a <= b <= text@.len(),
    ensures
        a <= r.0 <= r.1 <= b,
        text@.subrange(r.0 as int, r.1 as int) == trimmed(text@.subrange(a as int, b as int)),
{
    let mut i: usize = a;
    while i < b && is_whitespace_char(text.get_char(i))
        invariant
            a <= i <= b,
            b <= text@.len(),
            trim_start(text@.subrange(a as int, b as int)) == trim_start(
                text@.subrange(i as int, b as int),
            ),
        decreases b - i,
    {
        assert(text@.subrange(i as int, b as int).drop_first() =~= text@.subrange(
            i + 1,
            b as int,
        ));
        i = i + 1;
    }
    assert(trim_start(text@.subrange(i as int, b as int)) == text@.subrange(i as int, b as int));
    let mut j: usize = b;
    while j > i && is_whitespace_char(text.get_char(j - 1))
        invariant
            a <= i <= j <= b,
            b <= text@.len(),
            trim_end(text@.subrange(i as int, b as int)) == trim_end(
                text@.subrange(i as int, j as int),
            ),
        decreases j - i,
    {
        assert(text@.subrange(i as int, j as int).drop_last() =~= text@.subrange(
            i as int,
            j - 1,
        ));
        j = j - 1;
    }
    assert(trim_end(text@.subrange(i as int, j as int)) == text@.subrange(i as int, j as int));
    (i, j)
}

/// The entry of the line made of the characters `a..b` of `text`.
fn read_line_entry(text: &str, a: usize, b: usize, lineno: usize, tag: u8) -> (r: Result<
    Option<[u8; 32]>,
    LedgerError,
>)
    requires
        a <= b <= text@.len(),
    ensures
        line_entry(text@.subrange(a as int, b as int), lineno as nat, tag) == match r {
            Ok(Some(id)) => Ok(Some(id@)),
            Ok(None) => Ok(None),
            Err(e) => Err(e),
        },
{
    let (i, j) = trim_range(text, a, b);
    if i == j {
        return Ok(None);
    }
    let first = text.get_char(i);
    if first == ';' || first == '#' {
        return Ok(None);
    }
    let s = text.substring_char(i, j);
    match ss58_decode(s) {
        None => Err(LedgerError::InvalidAddress { line: lineno }),
        Some((id, prefix)) => {
            if prefix == tag as u16 {
                Ok(Some(id))
            } else {
                Err(LedgerError::NetworkMismatch { expected: tag, found: prefix, line: Some(lineno) })
            }
        },
    }
}

/// The canonical allowlist of a text: the accounts of its entry lines in
/// file order, each of which must be an address for `network`.
pub fn canonicalize(text: &str, network: Network) -> (r: Result<Vec<[u8; 32]>, LedgerError>)
    requires
        text@.len() < usize::MAX,
    ensures
        ids_result(r) == canonical(text@, tag_of(network)),
{
    let tag = network.to_byte();
    let n = text.unicode_len();
    let ghost t = text@;
    let mut out: Vec<[u8; 32]> = Vec::new();
    let ghost mut done: Seq<Seq<char>> = Seq::empty();
    let mut start: usize = 0;
    let mut lineno: usize = 1;
    let mut k: usize = 0;
    assert(t.take(0) =~= Seq::<char>::empty());
    assert(ids_view(out@) =~= Seq::<Seq<u8>>::empty());
    while k < n
        invariant
            n == t.len(),
            t == text@,
            tag == tag_of(network),
            n < usize::MAX,
            start <= k <= n,
            done.len() <= start,
            lineno == done.len() + 1,
            split_lines(t.take(k as int)) == done.push(t.subrange(start as int, k as int)),
            canon_lines(done, tag) == Ok::<Seq<Seq<u8>>, LedgerError>(ids_view(out@)),
        decreases n - k,
    {
        let c = text.get_char(k);
        assert(t.take(k + 1).drop_last() =~= t.take(k as int));
        assert(t.take(k + 1).last() == c);
        if c == '\n' {
            let line = read_line_entry(text, start, k, lineno, tag);
            let ghost prev = done;
            proof {
                done = done.push(t.subrange(start as int, k as int));
                assert(done.drop_last() =~= prev);
            }
            match line {
                Err(e) => {
                    proof {
                        assert(canon_lines(done, tag) == Err::<Seq<Seq<u8>>, LedgerError>(e));
                        assert(t.take(k + 1).drop_last() =~= t.take(k as int));
                        assert(split_lines(t.take(k + 1)) == split_lines(t.take(k as int)).push(
                            Seq::empty(),
                        ));
                        lemma_split_lines_prefix(t, k + 1, n as int);
                        assert(t.take(n as int) =~= t);
                        assert(done =~= split_lines(t.take(k + 1)).drop_last());
                        lemma_canon_error_extends(done, split_lines(t), tag);
                        assert(canonical(text@, tag) == Err::<Seq<Seq<u8>>, LedgerError>(e));
                    }
                    return Err(e);
                },
                Ok(None) => {},
                Ok(Some(id)) => {
                    let ghost before = out@;
                    out.push(id);
                    assert(ids_view(out@) =~= ids_view(before).push(id@));
                },
            }
            start = k + 1;
            lineno = lineno + 1;
            assert(t.subrange(start as int, k + 1) =~= Seq::<char>::empty());
        } else {
            assert(t.subrange(start as int, k + 1) =~= t.subrange(start as int, k as int).push(c));
            assert(done.push(t.subrange(start as int, k as int)).update(
                done.len() as int,
                t.subrange(start as int, k as int).push(c),
            ) =~= done.push(t.subrange(start as int, k + 1)));
        }
        k = k + 1;
    }
    assert(t.take(n as int) =~= t);
    let line = read_line_entry(text, start, n, lineno, tag);
    let ghost prev = done;
    proof {
        done = done.push(t.subrange(start as int, n as int));
        assert(done.drop_last() =~= prev);
    }
    match line {
        Err(e) => Err(e),
        Ok(None) => Ok(out),
        Ok(Some(id)) => {
            let ghost before = out@;
            out.push(id);
            assert(ids_view(out@) =~= ids_view(before).push(id@));
            Ok(out)
        },
    }
}

} // verus!
