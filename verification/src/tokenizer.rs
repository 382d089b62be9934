//! Reading the tokenizer a GGUF file embeds: which family its vocabulary
//! belongs to (`tokenizer.ggml.model`), and the merge list of a
//! byte-level BPE vocabulary.
use vstd::prelude::*;

use crate::error::Error;
use crate::text::{chars_of, copy_range, push_str, str_eq, string_from_chars};

verus! {

/// Tokenizer families a GGUF file can embed.
#[derive(Debug, Clone, Copy, PartialEq, Eq, Structural)]
pub enum TokenizerFamily {
    /// `"llama"`: SentencePiece-style pieces with scores, rebuilt as a
    /// Unigram model with byte fallback.
    Unigram,
    /// `"gpt2"`: byte-level BPE with a merge list.
    Bpe,
}

/// `format!("{:?}", s)`: the string quoted and escaped as Rust's `Debug`
/// writes it.
pub uninterp spec fn str_debug(s: Seq<char>) -> Seq<char>;

/// Rust's `Debug` rendering of a string (std's `<str as Debug>::fmt`).
/// The contract names the result; the escaping rules are not restated.
#[verifier::external_body]
fn debug_quoted(s: &str) -> (r: String)
    ensures
        r@ == str_debug(s@),
{
    format!("{s:?}")
}

/// Message for a tokenizer family the engine does not know.
pub open spec fn unsupported_family_message(model: Seq<char>) -> Seq<char> {
    "unsupported gguf tokenizer model "@ + str_debug(model) + " (expected \"llama\" or \"gpt2\")"@
}

/// The error for an unknown tokenizer family, given the family name as
/// Rust's `Debug` writes it.
pub fn unsupported_family_error(quoted: &str) -> (e: Error)
    ensures
        e matches Error::Config(m) && m@ == "unsupported gguf tokenizer model "@ + quoted@
            + " (expected \"llama\" or \"gpt2\")"@,
{
    let mut m: Vec<char> = Vec::new();
    push_str(&mut m, "unsupported gguf tokenizer model ");
    push_str(&mut m, quoted);
    push_str(&mut m, " (expected \"llama\" or \"gpt2\")");
    Error::Config(string_from_chars(m.as_slice()))
}

/// The tokenizer family named by `tokenizer.ggml.model`.
pub fn tokenizer_family(model: Option<&str>) -> (r: Result<TokenizerFamily, Error>)
    ensures
        match model {
            None => r matches Err(Error::Config(m)) && m@ == "gguf: missing tokenizer.ggml.model"@,
            Some(s) => if s@ == "llama"@ {
                r == Ok::<TokenizerFamily, Error>(TokenizerFamily::Unigram)
            } else if s@ == "gpt2"@ {
                r == Ok::<TokenizerFamily, Error>(TokenizerFamily::Bpe)
            } else {
                r matches Err(Error::Config(m)) && m@ == unsupported_family_message(s@)
            },
        },
{
    match model {
        None => Err(Error::Config(String::from_str("gguf: missing tokenizer.ggml.model"))),
        Some(s) => {
            if str_eq(s, "llama") {
                Ok(TokenizerFamily::Unigram)
            } else if str_eq(s, "gpt2") {
                Ok(TokenizerFamily::Bpe)
            } else {
                let q = debug_quoted(s);
                Err(unsupported_family_error(q.as_str()))
            }
        },
    }
}

/// Index of the first space in `s`, if any.
pub open spec fn first_space(s: Seq<char>) -> Option<int> {
    if exists|i: int| 0 <= i < s.len() && s[i] == ' ' {
        Some(choose|i: int| 0 <= i < s.len() && s[i] == ' ' && forall|j: int| 0 <= j < i ==> s[j] != ' ')
    } else {
        None
    }
}

/// The merge pairs of a BPE merge list: each entry split at its first
/// space; entries without a space are skipped.
pub open spec fn spec_merges(raw: Seq<Seq<char>>) -> Seq<(Seq<char>, Seq<char>)>
    decreases raw.len(),
{
    if raw.len() == 0 {
        Seq::empty()
    } else {
        let prev = spec_merges(raw.drop_last());
        match first_space(raw.last()) {
            Some(k) => prev.push((raw.last().take(k), raw.last().skip(k + 1))),
            None => prev,
        }
    }
}

fn find_space(s: &[char]) -> (r: Option<usize>)
    ensures
        match r {
            Some(k) => k < s@.len() && first_space(s@) == Some(k as int),
            None => first_space(s@) is None,
        },
{
    let mut i: usize = 0;
    while i < s.len()
        invariant
            i <= s@.len(),
            forall|j: int| 0 <= j < i ==> s@[j] != ' ',
        decreases s@.len() - i,
    {
        if s[i] == ' ' {
            let ghost k = choose|k: int| 0 <= k < s@.len() && s@[k] == ' ' && forall|j: int| 0 <= j < k ==> s@[j] != ' ';
            assert(s@[i as int] == ' ');
            proof {
                if k < i {
                    assert(s@[k] != ' ');
                }
                if k > i {
                    assert(s@[i as int] != ' ');
                }
            }
            return Some(i);
        }
        i = i + 1;
    }
    None
}

/// Views of a list of string pairs.
pub open spec fn pair_views(v: Seq<(String, String)>) -> Seq<(Seq<char>, Seq<char>)> {
    v.map_values(|p: (String, String)| (p.0@, p.1@))
}

/// Views of a list of strings.
pub open spec fn string_views(v: Seq<String>) -> Seq<Seq<char>> {
    v.map_values(|s: String| s@)
}

/// Parse a GGUF BPE merge list into `(left, right)` pairs.
pub fn bpe_merges(raw: &[String]) -> (out: Vec<(String, String)>)
    ensures
        pair_views(out@) == spec_merges(string_views(raw@)),
{
    let mut out: Vec<(String, String)> = Vec::new();
    let mut i: usize = 0;
    while i < raw.len()
        invariant
            i <= raw@.len(),
            pair_views(out@) == spec_merges(string_views(raw@.take(i as int))),
        decreases raw@.len() - i,
    {
        assert(string_views(raw@.take(i + 1)).drop_last() =~= string_views(raw@.take(i as int)));
        assert(string_views(raw@.take(i + 1)).last() == raw@[i as int]@);
        let cs = chars_of(raw[i].as_str());
        match find_space(cs.as_slice()) {
            Some(k) => {
                assert(k < cs@.len());
                let a = copy_range(cs.as_slice(), 0, k);
                let b = copy_range(cs.as_slice(), k + 1, cs.len());
                let ghost before = out@;
                out.push((string_from_chars(a.as_slice()), string_from_chars(b.as_slice())));
                assert(a@ =~= cs@.take(k as int));
                assert(b@ =~= cs@.skip(k + 1));
                assert(pair_views(out@) =~= pair_views(before).push((cs@.take(k as int), cs@.skip(k + 1))));
            },
            None => {},
        }
        i = i + 1;
    }
    assert(raw@.take(raw@.len() as int) =~= raw@);
    out
}

} // verus!
