//! API-key file maintenance. Each line of the keys file holds the
//! SHA-256 (lower-case hex) of a key followed by its scopes; this module
//! computes the line a new key adds, the file with keys revoked by digest
//! prefix, and the file with plaintext keys rehashed.
use sha2::Digest;
use vstd::prelude::*;
use vstd::utf8::encode_utf8;

use crate::federation::{char_views, lines_of, split_lines};
use crate::sse::{hex_bytes, hex_string};
use crate::stop::has_prefix;
use crate::text::{chars_of, char_is_space, copy_range, is_space, push_all, push_str, string_from_chars};

verus! {

/// `cgn-ctl key` subcommands; `file` is the keys file's path.
#[derive(Debug, Clone)]
pub enum Cmd {
    /// Generate a key, print it once, and append its digest and scopes.
    Create { scopes: String, file: String },
    /// Revoke the keys whose digest starts with `sha`.
    Revoke { sha: String, file: String },
    /// Rehash the plaintext keys of the file in place.
    Lock { file: String },
}

/// The SHA-256 digest of a byte string (32 bytes).
pub uninterp spec fn sha256_digest(input: Seq<u8>) -> Seq<u8>;

/// Calls `sha2::Sha256::digest`, which hashes the whole input at once.
/// Claimed: the result is the SHA-256 digest of `input` and depends on
/// nothing else.
#[verifier::external_body]
fn sha256(input: &[u8]) -> (out: [u8; 32])
    ensures
        out@ == sha256_digest(input@),
{
    sha2::Sha256::digest(input).into()
}

/// Lower-case hex of the SHA-256 digest of `input`.
pub fn sha_hex(input: &[u8]) -> (s: String)
    ensures
        s@ == hex_bytes(sha256_digest(input@)),
{
    let d = sha256(input);
    let mut v: Vec<u8> = Vec::new();
    let mut i: usize = 0;
    while i < 32
        invariant
            i <= 32,
            d@.len() == 32,
            v@ == d@.take(i as int),
        decreases 32 - i,
    {
        v.push(d[i]);
        assert(d@.take(i + 1) =~= d@.take(i as int).push(d@[i as int]));
        i = i + 1;
    }
    assert(d@.take(32) =~= d@);
    hex_string(&v)
}

/// The keys-file line of a key whose digest is `digest_hex`: the digest,
/// a space, the scopes, a line break.
pub fn key_line_for(digest_hex: &str, scopes: &str) -> (line: String)
    ensures
        line@ == digest_hex@ + seq![' '] + scopes@ + seq!['\n'],
{
    let mut out: Vec<char> = Vec::new();
    push_str(&mut out, digest_hex);
    out.push(' ');
    push_str(&mut out, scopes);
    out.push('\n');
    string_from_chars(out.as_slice())
}

/// The keys-file line for a new key: its digest and its scopes.
pub fn key_line(secret: &str, scopes: &str) -> (line: String)
    ensures
        line@ == hex_bytes(sha256_digest(encode_utf8(secret@))) + seq![' '] + scopes@ + seq!['\n'],
{
    let sha = sha_hex(secret.as_bytes());
    key_line_for(sha.as_str(), scopes)
}

/// Index of the first non-whitespace character at or after `i`.
pub open spec fn skip_ws(s: Seq<char>, i: int) -> int
    decreases s.len() - i,
{
    if i < 0 || i >= s.len() {
        s.len() as int
    } else if is_space(s[i]) {
        skip_ws(s, i + 1)
    } else {
        i
    }
}

/// Index of the first whitespace character at or after `i`.
pub open spec fn word_end(s: Seq<char>, i: int) -> int
    decreases s.len() - i,
{
    if i < 0 || i >= s.len() {
        s.len() as int
    } else if is_space(s[i]) {
        i
    } else {
        word_end(s, i + 1)
    }
}

/// The whitespace-separated word that starts at or after `i`, with the
/// offset just past it, as `str::split_whitespace` finds it.
pub open spec fn word_from(s: Seq<char>, i: int) -> Option<(Seq<char>, int)> {
    let b = skip_ws(s, i);
    if b >= s.len() {
        None
    } else {
        let e = word_end(s, b);
        Some((s.subrange(b, e), e))
    }
}

/// The first word of `s`, or nothing.
pub open spec fn first_word(s: Seq<char>) -> Seq<char> {
    match word_from(s, 0) {
        Some((w, _)) => w,
        None => Seq::empty(),
    }
}

/// The second word of `s`, or nothing.
pub open spec fn second_word(s: Seq<char>) -> Seq<char> {
    match word_from(s, 0) {
        Some((_, e)) => match word_from(s, e) {
            Some((w, _)) => w,
            None => Seq::empty(),
        },
        None => Seq::empty(),
    }
}

proof fn lemma_skip_ws_bounds(s: Seq<char>, i: int)
    requires
        0 <= i <= s.len(),
    ensures
        i <= skip_ws(s, i) <= s.len(),
    decreases s.len() - i,
{
    if i < s.len() && is_space(s[i]) {
        lemma_skip_ws_bounds(s, i + 1);
    }
}

proof fn lemma_word_end_bounds(s: Seq<char>, i: int)
    requires
        0 <= i <= s.len(),
    ensures
        i <= word_end(s, i) <= s.len(),
    decreases s.len() - i,
{
    if i < s.len() && !is_space(s[i]) {
        lemma_word_end_bounds(s, i + 1);
    }
}

/// Bounds of the word that starts at or after `i`.
fn next_word(s: &[char], i: usize) -> (r: Option<(usize, usize)>)
    requires
        i <= s@.len(),
    ensures
        match r {
            Some((b, e)) => {
                &&& b <= e <= s@.len()
                &&& word_from(s@, i as int) == Some((s@.subrange(b as int, e as int), e as int))
            },
            None => word_from(s@, i as int) is None,
        },
{
    let mut b = i;
    let mut go = true;
    while go
        invariant
            i <= b <= s@.len(),
            skip_ws(s@, i as int) == skip_ws(s@, b as int),
            !go ==> skip_ws(s@, b as int) == b,
        decreases s@.len() - b + (if go { 1int } else { 0int }),
    {
        if b < s.len() && char_is_space(s[b]) {
            b = b + 1;
        } else {
            go = false;
        }
    }
    if b >= s.len() {
        return None;
    }
    let mut e = b;
    let mut go = true;
    while go
        invariant
            b <= e <= s@.len(),
            word_end(s@, b as int) == word_end(s@, e as int),
            !go ==> word_end(s@, e as int) == e,
        decreases s@.len() - e + (if go { 1int } else { 0int }),
    {
        if e < s.len() && !char_is_space(s[e]) {
            e = e + 1;
        } else {
            go = false;
        }
    }
    Some((b, e))
}

/// The first word of `s`.
fn first_word_of(s: &[char]) -> (w: Vec<char>)
    ensures
        w@ == first_word(s@),
{
    match next_word(s, 0) {
        Some((b, e)) => copy_range(s, b, e),
        None => Vec::new(),
    }
}

/// The second word of `s`.
fn second_word_of(s: &[char]) -> (w: Vec<char>)
    ensures
        w@ == second_word(s@),
{
    match next_word(s, 0) {
        Some((_, e)) => match next_word(s, e) {
            Some((b2, e2)) => copy_range(s, b2, e2),
            None => Vec::new(),
        },
        None => Vec::new(),
    }
}

/// `c` in lower case when it is an ASCII capital.
pub open spec fn ascii_lower(c: char) -> char {
    if 'A' <= c && c <= 'Z' {
        ((c as u32) + 32) as char
    } else {
        c
    }
}

/// `s` with its ASCII capitals lowered, as `str::to_ascii_lowercase` does.
pub open spec fn to_ascii_lower(s: Seq<char>) -> Seq<char> {
    s.map_values(|c: char| ascii_lower(c))
}

fn lower(s: &[char]) -> (out: Vec<char>)
    ensures
        out@ == to_ascii_lower(s@),
{
    let mut out: Vec<char> = Vec::new();
    let mut i: usize = 0;
    while i < s.len()
        invariant
            i <= s@.len(),
            out@ == to_ascii_lower(s@.take(i as int)),
        decreases s@.len() - i,
    {
        let c = s[i];
        let code = c as u32;
        let l = if 65 <= code && code <= 90 {
            ((code + 32) as u8) as char
        } else {
            c
        };
        out.push(l);
        assert(to_ascii_lower(s@.take(i + 1)) =~= to_ascii_lower(s@.take(i as int)).push(
            ascii_lower(s@[i as int]),
        ));
        i = i + 1;
    }
    assert(s@.take(s@.len() as int) =~= s@);
    out
}

fn starts_with(s: &[char], p: &[char]) -> (b: bool)
    ensures
        b == has_prefix(s@, p@),
{
    if p.len() > s.len() {
        return false;
    }
    let mut i: usize = 0;
    while i < p.len()
        invariant
            p@.len() <= s@.len(),
            i <= p@.len(),
            forall|k: int| 0 <= k < i ==> s@[k] == p@[k],
        decreases p@.len() - i,
    {
        if s[i] != p[i] {
            assert(s@.take(p@.len() as int)[i as int] != p@[i as int]);
            return false;
        }
        i = i + 1;
    }
    assert(s@.take(p@.len() as int) =~= p@);
    true
}

/// The lines that survive revoking `needle`: those whose first word does
/// not start with it.
pub open spec fn kept_lines(lines: Seq<Seq<char>>, needle: Seq<char>) -> Seq<Seq<char>>
    decreases lines.len(),
{
    if lines.len() == 0 {
        Seq::empty()
    } else {
        let k = kept_lines(lines.drop_last(), needle);
        if has_prefix(first_word(lines.last()), needle) {
            k
        } else {
            k.push(lines.last())
        }
    }
}

/// Lines joined with `\n` between them.
pub open spec fn joined_lines(ls: Seq<Seq<char>>) -> Seq<char>
    decreases ls.len(),
{
    if ls.len() == 0 {
        Seq::empty()
    } else if ls.len() == 1 {
        ls[0]
    } else {
        joined_lines(ls.drop_last()) + seq!['\n'] + ls.last()
    }
}

/// The keys file after revoking every key whose digest starts with `sha`
/// (compared in lower case).
pub open spec fn spec_revoke(txt: Seq<char>, sha: Seq<char>) -> Seq<char> {
    joined_lines(kept_lines(lines_of(txt), to_ascii_lower(sha)))
}

/// Remove every line whose digest starts with `sha` (any case); the kept
/// lines are joined with `\n`.
pub fn revoke_text(txt: &str, sha: &str) -> (out: String)
    ensures
        out@ == spec_revoke(txt@, sha@),
{
    let t = chars_of(txt);
    let lines = split_lines(t.as_slice());
    let sc = chars_of(sha);
    let needle = lower(sc.as_slice());
    let ghost lv = char_views(lines@);
    let mut kept: Vec<Vec<char>> = Vec::new();
    let mut i: usize = 0;
    while i < lines.len()
        invariant
            i <= lines@.len(),
            lv == char_views(lines@),
            lv == lines_of(t@),
            char_views(kept@) == kept_lines(lv.take(i as int), needle@),
        decreases lines@.len() - i,
    {
        let first = first_word_of(lines[i].as_slice());
        assert(lv.take(i + 1).drop_last() =~= lv.take(i as int));
        assert(lv[i as int] == lines@[i as int]@);
        if !starts_with(first.as_slice(), needle.as_slice()) {
            let ghost before = kept@;
            let copy = copy_range(lines[i].as_slice(), 0, lines[i].len());
            assert(copy@ =~= lines@[i as int]@);
            kept.push(copy);
            assert(char_views(kept@) =~= char_views(before).push(lv[i as int]));
        }
        i = i + 1;
    }
    assert(lv.take(lines@.len() as int) =~= lv);
    let ghost kv = char_views(kept@);
    let mut out: Vec<char> = Vec::new();
    let mut j: usize = 0;
    while j < kept.len()
        invariant
            j <= kept@.len(),
            kv == char_views(kept@),
            out@ == joined_lines(kv.take(j as int)),
        decreases kept@.len() - j,
    {
        let ghost before = out@;
        if j > 0 {
            out.push('\n');
        }
        push_all(&mut out, kept[j].as_slice());
        proof {
            let tk = kv.take(j + 1);
            assert(tk.drop_last() =~= kv.take(j as int));
            assert(tk.last() == kept@[j as int]@);
            if j == 0 {
                assert(tk.len() == 1);
                assert(out@ =~= tk[0]);
            } else {
                assert(out@ =~= before + seq!['\n'] + tk.last());
            }
        }
        j = j + 1;
    }
    assert(kv.take(kept@.len() as int) =~= kv);
    string_from_chars(out.as_slice())
}

/// An ASCII hexadecimal digit.
pub open spec fn is_hex_char(c: char) -> bool {
    ('0' <= c && c <= '9') || ('a' <= c && c <= 'f') || ('A' <= c && c <= 'F')
}

/// A line of the locked file: a line whose first word is already a
/// 64-digit hex digest stays as it is; otherwise its first word is
/// replaced by that word's digest, followed by the second word (the
/// scopes). A blank line becomes empty.
pub open spec fn locked_line(line: Seq<char>) -> Seq<char> {
    let token = first_word(line);
    if token.len() == 0 {
        Seq::empty()
    } else if token.len() == 64 && forall|i: int| 0 <= i < 64 ==> is_hex_char(#[trigger] token[i]) {
        line
    } else {
        hex_bytes(sha256_digest(encode_utf8(token))) + seq![' '] + second_word(line)
    }
}

/// Each line locked and ended with `\n`.
pub open spec fn locked_lines(lines: Seq<Seq<char>>) -> Seq<char>
    decreases lines.len(),
{
    if lines.len() == 0 {
        Seq::empty()
    } else {
        locked_lines(lines.drop_last()) + locked_line(lines.last()) + seq!['\n']
    }
}

/// The line that replaces a plaintext key's line: the key's digest
/// `digest_hex`, a space, and the line's scopes (its second word).
pub fn rehashed_line(digest_hex: &str, line: &str) -> (out: String)
    ensures
        out@ == digest_hex@ + seq![' '] + second_word(line@),
{
    let l = chars_of(line);
    let mut v: Vec<char> = Vec::new();
    push_str(&mut v, digest_hex);
    v.push(' ');
    let scopes = second_word_of(l.as_slice());
    push_all(&mut v, scopes.as_slice());
    string_from_chars(v.as_slice())
}

/// Rehash the plaintext keys of a keys file in place: every line whose
/// first word is not yet a 64-digit hex digest gets that word's digest.
pub fn lock_text(txt: &str) -> (out: String)
    ensures
        out@ == locked_lines(lines_of(txt@)),
{
    let t = chars_of(txt);
    let lines = split_lines(t.as_slice());
    let ghost lv = char_views(lines@);
    let mut out: Vec<char> = Vec::new();
    let mut i: usize = 0;
    while i < lines.len()
        invariant
            i <= lines@.len(),
            lv == char_views(lines@),
            lv == lines_of(t@),
            out@ == locked_lines(lv.take(i as int)),
        decreases lines@.len() - i,
    {
        let ghost before = out@;
        let line = lines[i].as_slice();
        assert(lv[i as int] == line@);
        let token = first_word_of(line);
        if token.len() > 0 {
            let mut hex = token.len() == 64;
            let mut k: usize = 0;
            while k < token.len()
                invariant
                    k <= token@.len(),
                    hex ==> token@.len() == 64,
                    hex == (token@.len() == 64 && forall|q: int| 0 <= q < k ==> is_hex_char(#[trigger] token@[q])),
                decreases token@.len() - k,
            {
                let c = token[k];
                if !(('0' <= c && c <= '9') || ('a' <= c && c <= 'f') || ('A' <= c && c <= 'F')) {
                    hex = false;
                }
                k = k + 1;
            }
            if hex {
                push_all(&mut out, line);
            } else {
                let ts = string_from_chars(token.as_slice());
                let digest = sha_hex(ts.as_str().as_bytes());
                let ls = string_from_chars(line);
                let replaced = rehashed_line(digest.as_str(), ls.as_str());
                push_str(&mut out, replaced.as_str());
            }
        }
        out.push('\n');
        proof {
            assert(lv.take(i + 1).drop_last() =~= lv.take(i as int));
            assert(lv.take(i + 1).last() == line@);
            assert(out@ =~= before + locked_line(line@) + seq!['\n']);
        }
        i = i + 1;
    }
    assert(lv.take(lines@.len() as int) =~= lv);
    string_from_chars(out.as_slice())
}

} // verus!
