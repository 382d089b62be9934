//! Stop-string handling for streamed output: how much decoded text is
//! safe to emit while a stop string might still be forming at its tail,
//! and where the first stop string occurs.
use vstd::prelude::*;
use vstd::utf8::{encode_scalar, encode_utf8};

use crate::text::chars_of;
use vstd::string::StringSliceAdditionalSpecFns;

verus! {

/// Does `s` start with `p`?
pub open spec fn has_prefix(s: Seq<char>, p: Seq<char>) -> bool {
    p.len() <= s.len() && s.take(p.len() as int) == p
}

/// Could the tail of `text` from char `k` still grow into one of `stops`?
pub open spec fn tail_may_grow(text: Seq<char>, stops: Seq<Seq<char>>, k: int) -> bool {
    exists|j: int| 0 <= j < stops.len() && has_prefix(#[trigger] stops[j], text.skip(k))
}

/// First char position at or after `k` whose tail could grow into a stop
/// string (or the text's length when there is none).
pub open spec fn first_growing_tail(text: Seq<char>, stops: Seq<Seq<char>>, k: int) -> int
    decreases text.len() - k,
{
    if k < 0 || k >= text.len() {
        text.len() as int
    } else if tail_may_grow(text, stops, k) {
        k
    } else {
        first_growing_tail(text, stops, k + 1)
    }
}

/// UTF-8 length in bytes of `chars`.
pub open spec fn utf8_len(chars: Seq<char>) -> nat {
    encode_utf8(chars).len()
}

/// The safe length, in bytes: everything before the first tail that
/// could still grow into a stop string.
pub open spec fn spec_held_back_len(text: Seq<char>, stops: Seq<Seq<char>>) -> nat {
    utf8_len(text.take(first_growing_tail(text, stops, 0)))
}

pub proof fn lemma_encode_utf8_concat(a: Seq<char>, b: Seq<char>)
    ensures
        encode_utf8(a + b) == encode_utf8(a) + encode_utf8(b),
    decreases a.len(),
{
    if a.len() > 0 {
        assert((a + b).drop_first() =~= a.drop_first() + b);
        lemma_encode_utf8_concat(a.drop_first(), b);
        assert(encode_scalar(a[0] as u32) + (encode_utf8(a.drop_first()) + encode_utf8(b))
            =~= (encode_scalar(a[0] as u32) + encode_utf8(a.drop_first())) + encode_utf8(b));
    } else {
        assert(a + b =~= b);
        assert(encode_utf8(a) =~= Seq::<u8>::empty());
        assert(Seq::<u8>::empty() + encode_utf8(b) =~= encode_utf8(b));
    }
}

proof fn lemma_utf8_len_take(s: Seq<char>, k: int)
    requires
        0 <= k < s.len(),
    ensures
        utf8_len(s.take(k + 1)) == utf8_len(s.take(k)) + encode_scalar(s[k] as u32).len(),
        utf8_len(s.take(k + 1)) <= utf8_len(s),
{
    assert(s.take(k + 1) =~= s.take(k) + seq![s[k]]);
    lemma_encode_utf8_concat(s.take(k), seq![s[k]]);
    let one = seq![s[k]];
    assert(one[0] == s[k]);
    assert(one.drop_first() =~= Seq::<char>::empty());
    assert(encode_utf8(Seq::<char>::empty()) =~= Seq::<u8>::empty());
    assert(encode_utf8(one) =~= encode_scalar(s[k] as u32) + encode_utf8(one.drop_first()));
    assert(s =~= s.take(k + 1) + s.skip(k + 1));
    lemma_encode_utf8_concat(s.take(k + 1), s.skip(k + 1));
}

/// Bytes in the UTF-8 encoding of `c`.
fn char_utf8_len(c: char) -> (n: usize)
    ensures
        n == encode_scalar(c as u32).len(),
{
    let u = c as u32;
    if u <= 0x7f {
        1
    } else if u <= 0x7ff {
        2
    } else if u <= 0xffff {
        3
    } else {
        4
    }
}

/// Byte length of the first `k` chars of `s`.
fn prefix_byte_len(s: &[char], k: usize, total: usize) -> (n: usize)
    requires
        k <= s@.len(),
        total == utf8_len(s@),
    ensures
        n == utf8_len(s@.take(k as int)),
{
    let mut n: usize = 0;
    let mut i: usize = 0;
    assert(s@.take(0) =~= Seq::<char>::empty());
    while i < k
        invariant
            i <= k <= s@.len(),
            total == utf8_len(s@),
            n == utf8_len(s@.take(i as int)),
        decreases k - i,
    {
        proof {
            lemma_utf8_len_take(s@, i as int);
            vstd::utf8::char_is_scalar(s@[i as int]);
        }
        n = n + char_utf8_len(s[i]);
        i = i + 1;
    }
    n
}

fn starts_with_at(stop: &[char], text: &[char], k: usize) -> (b: bool)
    requires
        k <= text@.len(),
    ensures
        b == has_prefix(stop@, text@.skip(k as int)),
{
    let tail_len = text.len() - k;
    if tail_len > stop.len() {
        return false;
    }
    let mut j: usize = 0;
    while j < tail_len
        invariant
            tail_len == text@.len() - k,
            tail_len == text.len() - k,
            tail_len <= stop@.len(),
            j <= tail_len,
            forall|i: int| 0 <= i < j ==> stop@[i] == text@[k + i],
        decreases tail_len - j,
    {
        if stop[j] != text[k + j] {
            assert(stop@.take(tail_len as int)[j as int] != text@.skip(k as int)[j as int]);
            return false;
        }
        j = j + 1;
    }
    assert(stop@.take(tail_len as int) =~= text@.skip(k as int));
    true
}

/// Views of a list of strings.
pub open spec fn views(ss: Seq<String>) -> Seq<Seq<char>> {
    ss.map_values(|s: String| s@)
}

/// Length of the prefix of `text` that is safe to emit, holding back
/// any suffix that could still grow into one of `stops`.
pub fn held_back_len(text: &str, stops: &[String]) -> (n: usize)
    ensures
        n == spec_held_back_len(text@, views(stops@)),
{
    let t = chars_of(text);
    let total = text.as_bytes().len();
    proof {
        assert(total == utf8_len(t@));
    }
    let mut stop_chars: Vec<Vec<char>> = Vec::new();
    let mut j: usize = 0;
    while j < stops.len()
        invariant
            j <= stops@.len(),
            stop_chars@.len() == j,
            forall|i: int| 0 <= i < j ==> #[trigger] stop_chars@[i]@ == stops@[i]@,
        decreases stops@.len() - j,
    {
        stop_chars.push(chars_of(stops[j].as_str()));
        j = j + 1;
    }
    let ghost sv = views(stops@);
    let mut k: usize = 0;
    while k < t.len()
        invariant
            k <= t@.len(),
            t@ == text@,
            sv == views(stops@),
            stop_chars@.len() == stops@.len(),
            forall|i: int| 0 <= i < stops@.len() ==> #[trigger] stop_chars@[i]@ == stops@[i]@,
            first_growing_tail(t@, sv, 0) == first_growing_tail(t@, sv, k as int),
            total == utf8_len(t@),
        decreases t@.len() - k,
    {
        let mut j: usize = 0;
        let mut grows = false;
        while j < stop_chars.len()
            invariant
                j <= stop_chars@.len(),
                k < t@.len(),
                stop_chars@.len() == stops@.len(),
                sv == views(stops@),
                forall|i: int| 0 <= i < stops@.len() ==> #[trigger] stop_chars@[i]@ == stops@[i]@,
                grows == exists|i: int| 0 <= i < j && has_prefix(#[trigger] sv[i], t@.skip(k as int)),
            decreases stop_chars@.len() - j,
        {
            if starts_with_at(stop_chars[j].as_slice(), t.as_slice(), k) {
                grows = true;
            }
            assert(sv[j as int] == stop_chars@[j as int]@);
            j = j + 1;
        }
        if grows {
            return prefix_byte_len(t.as_slice(), k, total);
        }
        k = k + 1;
    }
    prefix_byte_len(t.as_slice(), k, total)
}

/// Does `needle` occur in `hay` at byte offset `i`?
pub open spec fn occurs_at(hay: Seq<u8>, needle: Seq<u8>, i: int) -> bool {
    0 <= i && i + needle.len() <= hay.len() && hay.subrange(i, i + needle.len()) == needle
}

/// First byte offset at or after `i` where `needle` occurs in `hay`.
pub open spec fn find_from(hay: Seq<u8>, needle: Seq<u8>, i: int) -> Option<nat>
    decreases hay.len() + 1 - i,
{
    if i < 0 || i + needle.len() > hay.len() {
        None
    } else if occurs_at(hay, needle, i) {
        Some(i as nat)
    } else {
        find_from(hay, needle, i + 1)
    }
}

/// Earliest byte offset at which any of `stops` occurs in `hay`.
pub open spec fn first_hit(hay: Seq<u8>, stops: Seq<Seq<u8>>) -> Option<nat>
    decreases stops.len(),
{
    if stops.len() == 0 {
        None
    } else {
        let here = find_from(hay, stops.last(), 0);
        match first_hit(hay, stops.drop_last()) {
            None => here,
            Some(a) => match here {
                None => Some(a),
                Some(b) => Some(if a <= b { a } else { b }),
            },
        }
    }
}

/// UTF-8 bytes of each stop string.
pub open spec fn stop_bytes(stops: Seq<Seq<char>>) -> Seq<Seq<u8>> {
    stops.map_values(|s: Seq<char>| encode_utf8(s))
}

/// Byte offset of the first occurrence of `needle` in `hay`, as
/// `str::find` reports it.
pub fn find_bytes(hay: &[u8], needle: &[u8]) -> (r: Option<usize>)
    ensures
        match r {
            Some(i) => find_from(hay@, needle@, 0) == Some(i as nat),
            None => find_from(hay@, needle@, 0) is None,
        },
{
    if needle.len() > hay.len() {
        return None;
    }
    let hay_len = hay.len();
    let last = hay_len - needle.len();
    let mut i: usize = 0;
    loop
        invariant
            hay_len == hay@.len(),
            i <= last,
            last + needle@.len() == hay@.len(),
            find_from(hay@, needle@, 0) == find_from(hay@, needle@, i as int),
        decreases last - i,
    {
        let mut j: usize = 0;
        let mut same = true;
        while j < needle.len()
            invariant
                hay_len == hay@.len(),
                i <= last,
                last + needle@.len() == hay@.len(),
                j <= needle@.len(),
                same == forall|k: int| 0 <= k < j ==> hay@[i + k] == needle@[k],
            decreases needle@.len() - j,
        {
            assert(i + j < hay@.len());
            if hay[i + j] != needle[j] {
                same = false;
            }
            j = j + 1;
        }
        if same {
            assert(hay@.subrange(i as int, i + needle@.len()) =~= needle@);
            return Some(i);
        }
        proof {
            if occurs_at(hay@, needle@, i as int) {
                let k = choose|k: int| 0 <= k < needle@.len() && hay@[i + k] != needle@[k];
                assert(hay@.subrange(i as int, i + needle@.len())[k] == hay@[i + k]);
            }
        }
        if i == last {
            assert(find_from(hay@, needle@, i + 1) is None);
            return None;
        }
        i = i + 1;
    }
}

/// Earliest byte offset in `text` at which one of `stops` occurs.
pub fn first_stop_hit(text: &str, stops: &[String]) -> (r: Option<usize>)
    ensures
        match r {
            Some(h) => first_hit(text.spec_bytes(), stop_bytes(views(stops@))) == Some(h as nat),
            None => first_hit(text.spec_bytes(), stop_bytes(views(stops@))) is None,
        },
{
    let hay = text.as_bytes();
    let ghost sb = stop_bytes(views(stops@));
    let mut best: Option<usize> = None;
    let mut j: usize = 0;
    while j < stops.len()
        invariant
            j <= stops@.len(),
            hay@ == text.spec_bytes(),
            sb == stop_bytes(views(stops@)),
            match best {
                Some(h) => first_hit(hay@, sb.take(j as int)) == Some(h as nat),
                None => first_hit(hay@, sb.take(j as int)) is None,
            },
        decreases stops@.len() - j,
    {
        let here = find_bytes(hay, stops[j].as_str().as_bytes());
        assert(sb.take(j + 1).drop_last() =~= sb.take(j as int));
        assert(sb.take(j + 1).last() == encode_utf8(stops@[j as int]@));
        best = match best {
            None => here,
            Some(a) => match here {
                None => Some(a),
                Some(b) => Some(if a <= b { a } else { b }),
            },
        };
        j = j + 1;
    }
    assert(sb.take(stops@.len() as int) =~= sb);
    best
}

/// What newly decoded text allows: finish at a stop string, emit up
/// to a safe offset, or hold everything back for now.
#[derive(Debug, Clone, Copy, PartialEq, Eq, Structural)]
pub enum TextStep {
    /// A stop string starts at this byte offset.
    Stop { hit: usize },
    /// Bytes up to this offset can be emitted.
    Emit { upto: usize },
    /// Nothing new can be emitted yet.
    Hold,
}

/// The decision for `text` when `emitted` bytes have already gone out:
/// a stop string anywhere wins; otherwise text ending in U+FFFD (an
/// incomplete character) is held, and so is any tail that could still
/// grow into a stop string.
pub open spec fn spec_text_step(text: Seq<char>, stops: Seq<Seq<char>>, emitted: nat) -> TextStep {
    let bytes = encode_utf8(text);
    match first_hit(bytes, stop_bytes(stops)) {
        Some(h) => TextStep::Stop { hit: h as usize },
        None => {
            if (text.len() > 0 && text.last() == '\u{FFFD}') || bytes.len() <= emitted {
                TextStep::Hold
            } else {
                let safe = spec_held_back_len(text, stops);
                if safe > emitted {
                    TextStep::Emit { upto: safe as usize }
                } else {
                    TextStep::Hold
                }
            }
        },
    }
}

/// Decide what the newly decoded `text` allows.
pub fn text_step(text: &str, stops: &[String], emitted: usize) -> (r: TextStep)
    ensures
        r == spec_text_step(text@, views(stops@), emitted as nat),
{
    match first_stop_hit(text, stops) {
        Some(h) => TextStep::Stop { hit: h },
        None => {
            let chars = chars_of(text);
            let partial = chars.len() > 0 && chars[chars.len() - 1] == '\u{FFFD}';
            assert(partial == (text@.len() > 0 && text@.last() == '\u{FFFD}'));
            let nbytes = text.as_bytes().len();
            if partial || nbytes <= emitted {
                TextStep::Hold
            } else {
                let safe = held_back_len(text, stops);
                if safe > emitted {
                    TextStep::Emit { upto: safe }
                } else {
                    TextStep::Hold
                }
            }
        },
    }
}

proof fn lemma_first_growing_tail_bounds(text: Seq<char>, stops: Seq<Seq<char>>, k: int)
    requires
        0 <= k <= text.len(),
    ensures
        k <= first_growing_tail(text, stops, k) <= text.len(),
    decreases text.len() - k,
{
    if k < text.len() && !tail_may_grow(text, stops, k) {
        lemma_first_growing_tail_bounds(text, stops, k + 1);
    }
}

pub proof fn lemma_find_from_some(hay: Seq<u8>, needle: Seq<u8>, i: int, k: nat)
    requires
        0 <= i,
        find_from(hay, needle, i) == Some(k),
    ensures
        i <= k,
        occurs_at(hay, needle, k as int),
        forall|p: int| i <= p < k ==> !occurs_at(hay, needle, p),
    decreases hay.len() + 1 - i,
{
    if !occurs_at(hay, needle, i) {
        lemma_find_from_some(hay, needle, i + 1, k);
    }
}

proof fn lemma_find_from_none(hay: Seq<u8>, needle: Seq<u8>, i: int)
    requires
        0 <= i,
        find_from(hay, needle, i) is None,
    ensures
        forall|p: int| i <= p ==> !occurs_at(hay, needle, p),
    decreases hay.len() + 1 - i,
{
    if i + needle.len() <= hay.len() {
        lemma_find_from_none(hay, needle, i + 1);
    }
}

proof fn lemma_first_hit(hay: Seq<u8>, stops: Seq<Seq<u8>>)
    ensures
        first_hit(hay, stops) is None ==> forall|j: int, p: int|
            0 <= j < stops.len() && 0 <= p ==> !#[trigger] occurs_at(hay, stops[j], p),
        first_hit(hay, stops) matches Some(h) ==> {
            &&& exists|j: int| 0 <= j < stops.len() && occurs_at(hay, #[trigger] stops[j], h as int)
            &&& forall|j: int, p: int|
                0 <= j < stops.len() && 0 <= p < h ==> !#[trigger] occurs_at(hay, stops[j], p)
        },
    decreases stops.len(),
{
    if stops.len() > 0 {
        let rest = stops.drop_last();
        lemma_first_hit(hay, rest);
        let n = stops.len() - 1;
        match find_from(hay, stops.last(), 0) {
            Some(b) => lemma_find_from_some(hay, stops.last(), 0, b),
            None => lemma_find_from_none(hay, stops.last(), 0),
        }
        assert forall|j: int| 0 <= j < n implies #[trigger] stops[j] == rest[j] by {}
        match first_hit(hay, rest) {
            Some(a) => {
                let j0 = choose|j: int| 0 <= j < rest.len() && occurs_at(hay, #[trigger] rest[j], a as int);
                assert(stops[j0] == rest[j0]);
            },
            None => {},
        }
    }
}

/// A stop hit is the earliest place any stop string occurs: one of them
/// starts there, and none occurs anywhere before it. The text emitted
/// ahead of the stop therefore never contains a stop string.
pub proof fn law_stop_hit_is_earliest(text: Seq<char>, stops: Seq<Seq<char>>, emitted: nat, hit: usize)
    requires
        encode_utf8(text).len() <= usize::MAX,
        spec_text_step(text, stops, emitted) == (TextStep::Stop { hit }),
    ensures
        exists|j: int| 0 <= j < stops.len() && occurs_at(encode_utf8(text), encode_utf8(#[trigger] stops[j]), hit as int),
        forall|j: int, p: int|
            0 <= j < stops.len() && 0 <= p < hit ==> !#[trigger] occurs_at(encode_utf8(text), encode_utf8(stops[j]), p),
{
    let sb = stop_bytes(stops);
    lemma_first_hit(encode_utf8(text), sb);
    let h = first_hit(encode_utf8(text), sb)->0;
    let j0 = choose|j: int| 0 <= j < sb.len() && occurs_at(encode_utf8(text), #[trigger] sb[j], h as int);
    assert(h == hit);
    assert(sb[j0] == encode_utf8(stops[j0]));
    assert forall|j: int, p: int| 0 <= j < stops.len() && 0 <= p < hit implies !occurs_at(encode_utf8(text), encode_utf8(stops[j]), p) by {
        assert(sb[j] == encode_utf8(stops[j]));
    }
}

/// Text released for emission holds no stop string at all, and every
/// tail that starts before the released offset could not grow into one.
pub proof fn law_emitted_text_is_stop_free(text: Seq<char>, stops: Seq<Seq<char>>, emitted: nat, upto: usize)
    requires
        encode_utf8(text).len() <= usize::MAX,
        spec_text_step(text, stops, emitted) == (TextStep::Emit { upto }),
    ensures
        emitted < upto,
        forall|j: int, p: int|
            0 <= j < stops.len() && 0 <= p ==> !#[trigger] occurs_at(encode_utf8(text), encode_utf8(stops[j]), p),
        upto == utf8_len(text.take(first_growing_tail(text, stops, 0))),
{
    let sb = stop_bytes(stops);
    lemma_first_hit(encode_utf8(text), sb);
    let k = first_growing_tail(text, stops, 0);
    lemma_first_growing_tail_bounds(text, stops, 0);
    if k < text.len() {
        lemma_utf8_len_take(text, k);
    } else {
        assert(text.take(k) =~= text);
    }
    assert forall|j: int, p: int| 0 <= j < stops.len() && 0 <= p implies !occurs_at(encode_utf8(text), encode_utf8(stops[j]), p) by {
        assert(sb[j] == encode_utf8(stops[j]));
    }
}

} // verus!
