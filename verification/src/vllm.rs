//! Framing of vLLM's `/v1/completions` event stream: a frame ends at a
//! blank line (`\n\n`), and a frame whose trimmed text starts with
//! `data:` carries the payload that follows it.
use vstd::prelude::*;
use vstd::utf8::{decode_utf8, valid_utf8};

use crate::sse::{copy_bytes, has_prefix, push_bytes, starts_with, strip_all_prefixes, strip_prefixes, utf8_text};
use crate::stop::{find_bytes, find_from, occurs_at};
use crate::text::{chars_of, copy_range, string_from_chars, trim, trim_bounds};

verus! {

/// Position of the first occurrence of `needle` in `haystack`, as
/// `haystack.windows(needle.len()).position(|w| w == needle)` finds it.
/// `windows` panics on an empty window, so `needle` is not empty.
pub fn find_subseq(haystack: &[u8], needle: &[u8]) -> (r: Option<usize>)
    requires
        needle@.len() > 0,
    ensures
        match r {
            Some(i) => find_from(haystack@, needle@, 0) == Some(i as nat),
            None => find_from(haystack@, needle@, 0) is None,
        },
{
    find_bytes(haystack, needle)
}

/// The frame separator.
pub open spec fn blank_line() -> Seq<u8> {
    seq![10u8, 10u8]
}

/// Cut `buf` into complete frames (each ending with its blank line) and
/// the unterminated rest.
pub open spec fn vllm_split(buf: Seq<u8>) -> (Seq<Seq<u8>>, Seq<u8>)
    decreases buf.len(),
{
    match find_from(buf, blank_line(), 0) {
        Some(i) => if i + 2 <= buf.len() {
            let (fs, rest) = vllm_split(buf.skip((i + 2) as int));
            (seq![buf.take((i + 2) as int)] + fs, rest)
        } else {
            (Seq::empty(), buf)
        },
        None => (Seq::empty(), buf),
    }
}

/// The payload of one frame: the whole frame as text (no text when it
/// is not UTF-8), trimmed; when it starts with `data:`, what follows the
/// (repeated) prefix, trimmed again.
pub open spec fn vllm_payload(frame: Seq<u8>) -> Option<Seq<char>> {
    let line = trim(
        if valid_utf8(frame) {
            decode_utf8(frame)
        } else {
            Seq::empty()
        },
    );
    if starts_with(line, "data:"@) {
        Some(trim(strip_all_prefixes(line, "data:"@)))
    } else {
        None
    }
}

/// The payloads of a run of frames, frames without one skipped.
pub open spec fn vllm_payloads(frames: Seq<Seq<u8>>) -> Seq<Seq<char>>
    decreases frames.len(),
{
    if frames.len() == 0 {
        Seq::empty()
    } else {
        let rest = vllm_payloads(frames.drop_first());
        match vllm_payload(frames[0]) {
            Some(p) => seq![p] + rest,
            None => rest,
        }
    }
}

/// The payload of one frame, if it has one.
pub fn vllm_frame_payload(frame: &[u8]) -> (r: Option<String>)
    ensures
        match r {
            Some(p) => vllm_payload(frame@) == Some(p@),
            None => vllm_payload(frame@) is None,
        },
{
    let text: Vec<char> = match utf8_text(frame) {
        Some(t) => chars_of(t),
        None => Vec::new(),
    };
    assert(text@ == (if valid_utf8(frame@) {
        decode_utf8(frame@)
    } else {
        Seq::<char>::empty()
    }));
    let (a, b) = trim_bounds(text.as_slice());
    let line = copy_range(text.as_slice(), a, b);
    let prefix = chars_of("data:");
    assert(line@.skip(0) =~= line@);
    if has_prefix(line.as_slice(), 0, prefix.as_slice()) {
        let stripped = strip_prefixes(line.as_slice(), prefix.as_slice());
        let (c, d) = trim_bounds(stripped.as_slice());
        let payload = copy_range(stripped.as_slice(), c, d);
        Some(string_from_chars(payload.as_slice()))
    } else {
        None
    }
}

/// Accumulates vLLM stream bytes and hands out complete frames' payloads.
pub struct VllmBuffer {
    buf: Vec<u8>,
}

impl View for VllmBuffer {
    type V = Seq<u8>;

    closed spec fn view(&self) -> Seq<u8> {
        self.buf@
    }
}

impl VllmBuffer {
    pub fn new() -> (b: Self)
        ensures
            b@ == Seq::<u8>::empty(),
    {
        VllmBuffer { buf: Vec::new() }
    }

    /// Append `bytes` and take every complete frame off the front,
    /// returning their payloads in order.
    pub fn push(&mut self, bytes: &[u8]) -> (payloads: Vec<String>)
        ensures
            final(self)@ == vllm_split(old(self)@ + bytes@).1,
            payloads@.len() == vllm_payloads(vllm_split(old(self)@ + bytes@).0).len(),
            forall|i: int|
                0 <= i < payloads@.len() ==> #[trigger] payloads@[i]@ == vllm_payloads(
                    vllm_split(old(self)@ + bytes@).0,
                )[i],
    {
        let mut data: Vec<u8> = copy_bytes(self.buf.as_slice(), 0, self.buf.len());
        assert(data@ =~= self.buf@);
        push_bytes(&mut data, bytes);
        let ghost all = data@;
        assert(all == old(self)@ + bytes@);
        let sep: [u8; 2] = [10u8, 10u8];
        let sep_slice = sep.as_slice();
        assert(sep_slice@ =~= blank_line());
        let mut out: Vec<String> = Vec::new();
        let mut from: usize = 0;
        assert(all.skip(0) =~= all);
        assert(out@.map_values(|s: String| s@) =~= Seq::<Seq<char>>::empty());
        loop
            invariant
                from <= data@.len(),
                data@ == all,
                all == old(self)@ + bytes@,
                sep_slice@ == blank_line(),
                vllm_split(all).1 == vllm_split(all.skip(from as int)).1,
                vllm_payloads(vllm_split(all).0) == out@.map_values(|s: String| s@) + vllm_payloads(
                    vllm_split(all.skip(from as int)).0,
                ),
            decreases data@.len() - from,
        {
            let rest = copy_bytes(data.as_slice(), from, data.len());
            match find_subseq(rest.as_slice(), sep_slice) {
                Some(i) => {
                    proof {
                        crate::stop::lemma_find_from_some(rest@, blank_line(), 0, i as nat);
                    }
                    let e = i + 2;
                    let frame = copy_bytes(rest.as_slice(), 0, e);
                    let ghost fs = vllm_split(rest@.skip(e as int)).0;
                    assert(rest@.take(e as int) == frame@);
                    assert(all.skip(from as int).skip(e as int) =~= all.skip(from + e));
                    let ghost before = out@.map_values(|s: String| s@);
                    match vllm_frame_payload(frame.as_slice()) {
                        Some(p) => {
                            out.push(p);
                            assert(out@.map_values(|s: String| s@) =~= before + seq![vllm_payload(frame@)->0]);
                        },
                        None => {},
                    }
                    assert((seq![frame@] + fs).drop_first() =~= fs);
                    from = from + e;
                },
                None => {
                    let mut nb: Vec<u8> = Vec::new();
                    push_bytes(&mut nb, rest.as_slice());
                    self.buf = nb;
                    assert(vllm_payloads(Seq::<Seq<u8>>::empty()) =~= Seq::<Seq<char>>::empty());
                    assert(out@.map_values(|s: String| s@) + Seq::<Seq<char>>::empty() =~= out@.map_values(
                        |s: String| s@,
                    ));
                    return out;
                },
            }
        }
    }
}

/// A blank line found in `w` is still the first one once more bytes
/// arrive after `w`.
proof fn lemma_find_from_extend(w: Seq<u8>, b: Seq<u8>, n: Seq<u8>, i: int)
    requires
        0 <= i,
        find_from(w, n, i) is Some,
    ensures
        find_from(w + b, n, i) == find_from(w, n, i),
    decreases w.len() + 1 - i,
{
    if i + n.len() <= w.len() {
        assert((w + b).subrange(i, i + n.len()) =~= w.subrange(i, i + n.len()));
        if !occurs_at(w, n, i) {
            lemma_find_from_extend(w, b, n, i + 1);
        }
    }
}

proof fn lemma_payloads_concat(x: Seq<Seq<u8>>, y: Seq<Seq<u8>>)
    ensures
        vllm_payloads(x + y) == vllm_payloads(x) + vllm_payloads(y),
    decreases x.len(),
{
    if x.len() == 0 {
        assert(x + y =~= y);
    } else {
        lemma_payloads_concat(x.drop_first(), y);
        assert((x + y).drop_first() =~= x.drop_first() + y);
        assert((x + y)[0] == x[0]);
        let rest = vllm_payloads(x.drop_first());
        match vllm_payload(x[0]) {
            Some(p) => {
                assert(seq![p] + (rest + vllm_payloads(y)) =~= (seq![p] + rest) + vllm_payloads(y));
            },
            None => {},
        }
    }
}

/// Splitting `w + b` takes off the frames complete in `w` first, then
/// splits what is left of `w` followed by `b`.
pub proof fn lemma_vllm_split_extend(w: Seq<u8>, b: Seq<u8>)
    ensures
        vllm_split(w + b).0 == vllm_split(w).0 + vllm_split(vllm_split(w).1 + b).0,
        vllm_split(w + b).1 == vllm_split(vllm_split(w).1 + b).1,
    decreases w.len(),
{
    match find_from(w, blank_line(), 0) {
        Some(i) => {
            crate::stop::lemma_find_from_some(w, blank_line(), 0, i);
            lemma_find_from_extend(w, b, blank_line(), 0);
            let e = (i + 2) as int;
            assert((w + b).take(e) =~= w.take(e));
            assert((w + b).skip(e) =~= w.skip(e) + b);
            lemma_vllm_split_extend(w.skip(e), b);
            let (fs, r) = vllm_split(w.skip(e));
            assert(vllm_split(w).0 == seq![w.take(e)] + fs);
            assert(vllm_split(w).1 == r);
            assert(vllm_split(w + b).0 == seq![w.take(e)] + vllm_split(w.skip(e) + b).0);
            assert(seq![w.take(e)] + (fs + vllm_split(r + b).0) =~= (seq![w.take(e)] + fs)
                + vllm_split(r + b).0);
        },
        None => {
            assert(vllm_split(w).0 =~= Seq::<Seq<u8>>::empty());
            assert(Seq::<Seq<u8>>::empty() + vllm_split(w + b).0 =~= vllm_split(w + b).0);
        },
    }
}

/// Chunking does not matter: feeding `a` then `b` to a buffer holding
/// `buf` yields the payloads, in order, and leaves the buffer that
/// feeding `a + b` at once does.
pub proof fn law_vllm_framing_ignores_chunking(buf: Seq<u8>, a: Seq<u8>, b: Seq<u8>)
    ensures
        ({
            let first = vllm_split(buf + a);
            let second = vllm_split(first.1 + b);
            let once = vllm_split(buf + a + b);
            &&& vllm_payloads(first.0) + vllm_payloads(second.0) == vllm_payloads(once.0)
            &&& second.1 == once.1
        }),
{
    lemma_vllm_split_extend(buf + a, b);
    let first = vllm_split(buf + a);
    let second = vllm_split(first.1 + b);
    lemma_payloads_concat(first.0, second.0);
}

} // verus!
