//! Server-Sent Events framing and choice handling for OpenAI-compatible
//! engine streams.
//!
//! An engine streams `data: <json>` frames terminated by a blank line
//! (LF or CRLF framing) and ends with `data: [DONE]`. [`SseBuffer`]
//! cuts the byte stream into frames and extracts each frame's data
//! payload; [`piece_from_choice`] decides which text, finish reason and
//! tool-call fragment one parsed choice contributes.
use vstd::prelude::*;
use vstd::utf8::{decode_utf8, valid_utf8};

use crate::text::{chars_of, copy_range, push_all, push_str, string_from_chars, trim, trim_bounds};

verus! {

/// End (exclusive) of the first complete frame of `buf` at or after
/// position `i`: one past a `\n\n` or `\n\r\n` terminator.
pub open spec fn frame_end_from(buf: Seq<u8>, i: int) -> Option<int>
    decreases buf.len() - i,
{
    if i < 0 || i + 1 >= buf.len() {
        None
    } else if buf[i] == 10 && buf[i + 1] == 10 {
        Some(i + 2)
    } else if buf[i] == 10 && buf[i + 1] == 13 && i + 2 < buf.len() && buf[i + 2] == 10 {
        Some(i + 3)
    } else {
        frame_end_from(buf, i + 1)
    }
}

proof fn lemma_frame_end_range(buf: Seq<u8>, i: int)
    ensures
        frame_end_from(buf, i) matches Some(e) ==> 2 <= e <= buf.len() && e >= i + 2,
    decreases buf.len() - i,
{
    if !(i < 0 || i + 1 >= buf.len()) {
        lemma_frame_end_range(buf, i + 1);
    }
}

/// Find the end (exclusive) of the first complete SSE frame in `buf`,
/// i.e. one past its blank-line terminator. Handles both LF (`\n\n`)
/// and CRLF (`\r\n\r\n`, seen as `\n\r\n` after the previous line's
/// `\r`) framing.
pub fn find_frame_end(buf: &[u8]) -> (r: Option<usize>)
    ensures
        match r {
            Some(e) => frame_end_from(buf@, 0) == Some(e as int),
            None => frame_end_from(buf@, 0) is None,
        },
{
    let mut i: usize = 0;
    while i < buf.len() && i + 1 < buf.len()
        invariant
            i <= buf@.len(),
            frame_end_from(buf@, 0) == frame_end_from(buf@, i as int),
        decreases buf@.len() - i,
    {
        if buf[i] == 10 {
            if buf[i + 1] == 10 {
                return Some(i + 2);
            }
            if buf[i + 1] == 13 && i + 2 < buf.len() && buf[i + 2] == 10 {
                return Some(i + 3);
            }
        }
        i = i + 1;
    }
    None
}

/// Reads bytes as UTF-8 text with `std::str::from_utf8`, which fails
/// exactly when the bytes are not valid UTF-8 and otherwise yields
/// their decoding.
#[verifier::external_body]
pub(crate) fn utf8_text(bytes: &[u8]) -> (r: Option<&str>)
    ensures
        r is Some <==> valid_utf8(bytes@),
        r matches Some(s) ==> s@ == decode_utf8(bytes@),
{
    std::str::from_utf8(bytes).ok()
}

/// Index of the first `\n` in `s` at or after `i` (or `s.len()`).
pub open spec fn line_break_from(s: Seq<char>, i: int) -> int
    decreases s.len() - i,
{
    if i < 0 || i >= s.len() {
        s.len() as int
    } else if s[i] == '\n' {
        i
    } else {
        line_break_from(s, i + 1)
    }
}

/// Does `s` start with `p`?
pub open spec fn starts_with(s: Seq<char>, p: Seq<char>) -> bool {
    p.len() <= s.len() && s.take(p.len() as int) == p
}

/// `s` with every leading repetition of `p` removed.
pub open spec fn strip_all_prefixes(s: Seq<char>, p: Seq<char>) -> Seq<char>
    decreases s.len(),
{
    if p.len() > 0 && starts_with(s, p) {
        strip_all_prefixes(s.skip(p.len() as int), p)
    } else {
        s
    }
}

/// The payload of the first line at or after `i` whose trimmed text
/// begins with `data:`: that line, trimmed, with the `data:` prefix
/// (repeated) removed and trimmed again.
pub open spec fn data_payload_from(s: Seq<char>, i: int) -> Option<Seq<char>>
    decreases s.len() - i,
{
    if i < 0 || i >= s.len() {
        None
    } else {
        let e = line_break_from(s, i);
        let line = trim(s.subrange(i, e));
        if starts_with(line, "data:"@) {
            Some(trim(strip_all_prefixes(line, "data:"@)))
        } else if e >= s.len() {
            None
        } else {
            proof {
                lemma_line_break_range(s, i);
            }
            data_payload_from(s, e + 1)
        }
    }
}

pub proof fn lemma_line_break_range(s: Seq<char>, i: int)
    requires
        0 <= i <= s.len(),
    ensures
        i <= line_break_from(s, i) <= s.len(),
        line_break_from(s, i) < s.len() ==> s[line_break_from(s, i)] == '\n',
        forall|j: int| i <= j < line_break_from(s, i) ==> s[j] != '\n',
    decreases s.len() - i,
{
    if i < s.len() && s[i] != '\n' {
        lemma_line_break_range(s, i + 1);
    }
}

/// What one frame of the stream carries.
#[derive(Debug, Clone, PartialEq, Eq)]
pub enum SseEvent {
    /// `data: [DONE]`: the stream is over.
    Done,
    /// The JSON text of a `data:` line.
    Payload(String),
}

/// The event of one frame, if it has a `data:` line (a frame that is
/// not valid UTF-8 has none).
pub open spec fn frame_event(frame: Seq<u8>) -> Option<Seq<char>> {
    if valid_utf8(frame) {
        data_payload_from(decode_utf8(frame), 0)
    } else {
        None
    }
}

/// Is `p` the stream terminator `[DONE]`?
pub open spec fn is_done(p: Seq<char>) -> bool {
    p == "[DONE]"@
}

pub(crate) fn has_prefix(s: &[char], from: usize, p: &[char]) -> (b: bool)
    requires
        from <= s@.len(),
    ensures
        b == starts_with(s@.skip(from as int), p@),
        b ==> from + p.len() <= s.len(),
{
    if s.len() - from < p.len() {
        return false;
    }
    let mut j: usize = 0;
    while j < p.len()
        invariant
            from + p@.len() <= s.len(),
            j <= p@.len(),
            forall|k: int| 0 <= k < j ==> s@[from + k] == p@[k],
        decreases p@.len() - j,
    {
        if s[from + j] != p[j] {
            assert(s@.skip(from as int).take(p@.len() as int)[j as int] != p@[j as int]);
            return false;
        }
        j = j + 1;
    }
    assert(s@.skip(from as int).take(p@.len() as int) =~= p@);
    true
}

pub(crate) fn strip_prefixes(s: &[char], p: &[char]) -> (out: Vec<char>)
    ensures
        out@ == strip_all_prefixes(s@, p@),
{
    let mut from: usize = 0;
    if p.len() == 0 {
        let out = copy_range(s, 0, s.len());
        assert(out@ =~= s@);
        return out;
    }
    assert(s@.skip(0) =~= s@);
    while has_prefix(s, from, p)
        invariant
            from <= s@.len(),
            p@.len() > 0,
            strip_all_prefixes(s@, p@) == strip_all_prefixes(s@.skip(from as int), p@),
        decreases s@.len() - from,
    {
        assert(s@.skip(from as int).skip(p@.len() as int) =~= s@.skip(from + p@.len()));
        from = from + p.len();
    }
    let out = copy_range(s, from, s.len());
    assert(out@ =~= s@.skip(from as int));
    out
}

/// Extract the payload of a frame's `data:` line, if it has one.
pub fn frame_payload(frame: &[u8]) -> (r: Option<String>)
    ensures
        match r {
            Some(p) => frame_event(frame@) == Some(p@),
            None => frame_event(frame@) is None,
        },
{
    let text = match utf8_text(frame) {
        Some(t) => t,
        None => return None,
    };
    let s = chars_of(text);
    let prefix = chars_of("data:");
    let mut i: usize = 0;
    while i < s.len()
        invariant
            i <= s@.len(),
            prefix@ == "data:"@,
            valid_utf8(frame@),
            s@ == decode_utf8(frame@),
            data_payload_from(s@, 0) == data_payload_from(s@, i as int),
        decreases s@.len() - i,
    {
        let mut e = i;
        while e < s.len() && s[e] != '\n'
            invariant
                i <= e <= s@.len(),
                line_break_from(s@, i as int) == line_break_from(s@, e as int),
            decreases s@.len() - e,
        {
            e = e + 1;
        }
        let line = copy_range(s.as_slice(), i, e);
        let (a, b) = trim_bounds(line.as_slice());
        let trimmed = copy_range(line.as_slice(), a, b);
        if has_prefix(trimmed.as_slice(), 0, prefix.as_slice()) {
            assert(trimmed@.skip(0) =~= trimmed@);
            let stripped = strip_prefixes(trimmed.as_slice(), prefix.as_slice());
            let (c, d) = trim_bounds(stripped.as_slice());
            let payload = copy_range(stripped.as_slice(), c, d);
            return Some(string_from_chars(payload.as_slice()));
        }
        assert(trimmed@.skip(0) =~= trimmed@);
        if e >= s.len() {
            return None;
        }
        i = e + 1;
    }
    None
}

/// Is the payload the stream terminator `[DONE]`?
pub fn payload_is_done(p: &str) -> (b: bool)
    ensures
        b == is_done(p@),
{
    let s = chars_of(p);
    let done = chars_of("[DONE]");
    if s.len() != done.len() {
        assert(s@.len() != done@.len());
        return false;
    }
    let mut j: usize = 0;
    while j < s.len()
        invariant
            s@.len() == done@.len(),
            s@ == p@,
            done@ == "[DONE]"@,
            j <= s@.len(),
            forall|k: int| 0 <= k < j ==> s@[k] == done@[k],
        decreases s@.len() - j,
    {
        if s[j] != done[j] {
            assert(s@[j as int] != done@[j as int]);
            assert(s@ != done@);
            return false;
        }
        j = j + 1;
    }
    assert(s@ =~= done@);
    true
}

/// Cut `buf` into complete frames and the unterminated rest.
pub open spec fn split_frames(buf: Seq<u8>) -> (Seq<Seq<u8>>, Seq<u8>)
    decreases buf.len(),
{
    match frame_end_from(buf, 0) {
        Some(e) => if 0 < e <= buf.len() {
            let (fs, rest) = split_frames(buf.skip(e));
            (seq![buf.take(e)] + fs, rest)
        } else {
            (Seq::empty(), buf)
        },
        None => (Seq::empty(), buf),
    }
}

/// The events of a run of frames, frames without a data line skipped.
pub open spec fn frames_events(frames: Seq<Seq<u8>>) -> Seq<Seq<char>>
    decreases frames.len(),
{
    if frames.len() == 0 {
        Seq::empty()
    } else {
        let rest = frames_events(frames.drop_first());
        match frame_event(frames[0]) {
            Some(p) => seq![p] + rest,
            None => rest,
        }
    }
}

/// Concatenation of a run of frames.
pub open spec fn concat_frames(frames: Seq<Seq<u8>>) -> Seq<u8>
    decreases frames.len(),
{
    if frames.len() == 0 {
        Seq::empty()
    } else {
        frames[0] + concat_frames(frames.drop_first())
    }
}

/// Accumulates stream bytes and hands out complete frames' payloads.
pub struct SseBuffer {
    buf: Vec<u8>,
}

impl View for SseBuffer {
    type V = Seq<u8>;

    closed spec fn view(&self) -> Seq<u8> {
        self.buf@
    }
}

impl SseBuffer {
    pub fn new() -> (b: Self)
        ensures
            b@ == Seq::<u8>::empty(),
    {
        SseBuffer { buf: Vec::new() }
    }

    /// Append `bytes` and take every complete frame off the front,
    /// returning the payloads of their `data:` lines in order.
    pub fn push(&mut self, bytes: &[u8]) -> (payloads: Vec<String>)
        ensures
            final(self)@ == split_frames(old(self)@ + bytes@).1,
            payloads@.len() == frames_events(split_frames(old(self)@ + bytes@).0).len(),
            forall|i: int|
                0 <= i < payloads@.len() ==> #[trigger] payloads@[i]@ == frames_events(
                    split_frames(old(self)@ + bytes@).0,
                )[i],
    {
        let mut data: Vec<u8> = Vec::new();
        let mut k: usize = 0;
        while k < self.buf.len()
            invariant
                k <= self.buf@.len(),
                data@ == self.buf@.take(k as int),
            decreases self.buf@.len() - k,
        {
            data.push(self.buf[k]);
            k = k + 1;
            assert(data@ =~= self.buf@.take(k as int));
        }
        let mut k: usize = 0;
        let ghost base = data@;
        while k < bytes.len()
            invariant
                k <= bytes@.len(),
                data@ == base + bytes@.take(k as int),
            decreases bytes@.len() - k,
        {
            data.push(bytes[k]);
            k = k + 1;
            assert(data@ =~= base + bytes@.take(k as int));
        }
        assert(self.buf@.take(self.buf@.len() as int) =~= self.buf@);
        assert(bytes@.take(bytes@.len() as int) =~= bytes@);
        let ghost all = data@;
        assert(all == old(self)@ + bytes@);
        let mut out: Vec<String> = Vec::new();
        let mut from: usize = 0;
        assert(all.skip(0) =~= all);
        assert(out@.map_values(|s: String| s@) =~= Seq::<Seq<char>>::empty());
        loop
            invariant
                from <= data@.len(),
                data@ == all,
                all == old(self)@ + bytes@,
                split_frames(all).1 == split_frames(all.skip(from as int)).1,
                frames_events(split_frames(all).0) == out@.map_values(|s: String| s@) + frames_events(
                    split_frames(all.skip(from as int)).0,
                ),
            decreases data@.len() - from,
        {
            let rest = copy_bytes(data.as_slice(), from, data.len());
            match find_frame_end(rest.as_slice()) {
                Some(e) => {
                    proof {
                        lemma_frame_end_range(rest@, 0);
                    }
                    let frame = copy_bytes(rest.as_slice(), 0, e);
                    let ghost fs = split_frames(rest@.skip(e as int)).0;
                    assert(rest@.take(e as int) == frame@);
                    assert(all.skip(from as int).skip(e as int) =~= all.skip(from + e));
                    let ghost before = out@.map_values(|s: String| s@);
                    match frame_payload(frame.as_slice()) {
                        Some(p) => {
                            out.push(p);
                            assert(out@.map_values(|s: String| s@) =~= before + seq![frame_event(frame@)->0]);
                        },
                        None => {},
                    }
                    assert((seq![frame@] + fs).drop_first() =~= fs);
                    from = from + e;
                },
                None => {
                    let mut nb: Vec<u8> = Vec::new();
                    push_bytes(&mut nb, rest.as_slice());
                    self.buf = nb;
                    assert(frames_events(Seq::<Seq<u8>>::empty()) =~= Seq::<Seq<char>>::empty());
                    assert(out@.map_values(|s: String| s@) + Seq::<Seq<char>>::empty() =~= out@.map_values(|s: String| s@));
                    return out;
                },
            }
        }
    }
}

pub(crate) fn copy_bytes(s: &[u8], from: usize, to: usize) -> (out: Vec<u8>)
    requires
        from <= to <= s@.len(),
    ensures
        out@ == s@.subrange(from as int, to as int),
{
    let mut out: Vec<u8> = Vec::new();
    let mut i = from;
    while i < to
        invariant
            from <= i <= to <= s@.len(),
            out@ == s@.subrange(from as int, i as int),
        decreases to - i,
    {
        out.push(s[i]);
        i = i + 1;
        assert(out@ =~= s@.subrange(from as int, i as int));
    }
    out
}

pub(crate) fn push_bytes(dst: &mut Vec<u8>, src: &[u8])
    ensures
        final(dst)@ == old(dst)@ + src@,
{
    let mut i: usize = 0;
    while i < src.len()
        invariant
            i <= src@.len(),
            dst@ == old(dst)@ + src@.take(i as int),
        decreases src@.len() - i,
    {
        dst.push(src[i]);
        i = i + 1;
        assert(dst@ =~= old(dst)@ + src@.take(i as int));
    }
    assert(src@.take(src@.len() as int) =~= src@);
}

/// Nothing is lost or reordered: the frames and the rest concatenate
/// back to the buffer, every frame ends at a terminator, and the rest
/// holds no complete frame.
pub proof fn law_framing_keeps_every_byte(buf: Seq<u8>)
    ensures
        concat_frames(split_frames(buf).0) + split_frames(buf).1 == buf,
        frame_end_from(split_frames(buf).1, 0) is None,
        forall|i: int|
            0 <= i < split_frames(buf).0.len() ==> frame_end_from(
                #[trigger] split_frames(buf).0[i],
                0,
            ) == Some(split_frames(buf).0[i].len() as int),
    decreases buf.len(),
{
    lemma_frame_end_range(buf, 0);
    match frame_end_from(buf, 0) {
        Some(e) => {
            let rest = buf.skip(e);
            law_framing_keeps_every_byte(rest);
            let (fs, r) = split_frames(rest);
            let frames = seq![buf.take(e)] + fs;
            assert(frames.drop_first() =~= fs);
            assert(concat_frames(frames) == buf.take(e) + concat_frames(fs));
            assert(buf.take(e) + (concat_frames(fs) + r) =~= buf);
            assert forall|i: int| 0 <= i < frames.len() implies frame_end_from(
                #[trigger] frames[i],
                0,
            ) == Some(frames[i].len() as int) by {
                if i == 0 {
                    lemma_frame_end_prefix(buf, e, 0);
                } else {
                    assert(frames[i] == fs[i - 1]);
                }
            }
        },
        None => {
            assert(concat_frames(Seq::<Seq<u8>>::empty()) =~= Seq::<u8>::empty());
            assert(Seq::<u8>::empty() + buf =~= buf);
        },
    }
}

/// A terminator found in `w` is still the first one once more bytes
/// arrive after `w`.
proof fn lemma_frame_end_extend(w: Seq<u8>, b: Seq<u8>, i: int)
    requires
        frame_end_from(w, i) is Some,
        0 <= i,
    ensures
        frame_end_from(w + b, i) == frame_end_from(w, i),
    decreases w.len() - i,
{
    lemma_frame_end_range(w, i);
    let wb = w + b;
    assert(wb[i] == w[i] && wb[i + 1] == w[i + 1]);
    if w[i] == 10 && w[i + 1] == 10 {
    } else if w[i] == 10 && w[i + 1] == 13 && i + 2 < w.len() && w[i + 2] == 10 {
        assert(wb[i + 2] == w[i + 2]);
    } else {
        lemma_frame_end_extend(w, b, i + 1);
        lemma_frame_end_range(w, i + 1);
        assert(wb[i + 2] == w[i + 2]);
    }
}

proof fn lemma_events_concat(x: Seq<Seq<u8>>, y: Seq<Seq<u8>>)
    ensures
        frames_events(x + y) == frames_events(x) + frames_events(y),
    decreases x.len(),
{
    if x.len() == 0 {
        assert(x + y =~= y);
    } else {
        lemma_events_concat(x.drop_first(), y);
        assert((x + y).drop_first() =~= x.drop_first() + y);
        assert((x + y)[0] == x[0]);
    }
}

/// Splitting `w + b` takes off the frames complete in `w` first, then
/// splits what is left of `w` followed by `b`.
pub proof fn lemma_split_extend(w: Seq<u8>, b: Seq<u8>)
    ensures
        split_frames(w + b).0 == split_frames(w).0 + split_frames(split_frames(w).1 + b).0,
        split_frames(w + b).1 == split_frames(split_frames(w).1 + b).1,
    decreases w.len(),
{
    lemma_frame_end_range(w, 0);
    match frame_end_from(w, 0) {
        Some(e) => {
            lemma_frame_end_extend(w, b, 0);
            assert((w + b).take(e) =~= w.take(e));
            assert((w + b).skip(e) =~= w.skip(e) + b);
            lemma_split_extend(w.skip(e), b);
            let (fs, r) = split_frames(w.skip(e));
            assert(split_frames(w).0 == seq![w.take(e)] + fs);
            assert(split_frames(w).1 == r);
            assert(split_frames(w + b).0 == seq![w.take(e)] + split_frames(w.skip(e) + b).0);
            assert(seq![w.take(e)] + (fs + split_frames(r + b).0) =~= (seq![w.take(e)] + fs) + split_frames(r
                + b).0);
        },
        None => {
            assert(split_frames(w).0 =~= Seq::<Seq<u8>>::empty());
            assert(Seq::<Seq<u8>>::empty() + split_frames(w + b).0 =~= split_frames(w + b).0);
        },
    }
}

/// Chunking does not matter: feeding `a` then `b` to a buffer holding
/// `buf` yields the payloads, in order, and leaves the buffer that
/// feeding `a + b` at once does.
pub proof fn law_framing_ignores_chunking(buf: Seq<u8>, a: Seq<u8>, b: Seq<u8>)
    ensures
        ({
            let first = split_frames(buf + a);
            let second = split_frames(first.1 + b);
            let once = split_frames(buf + a + b);
            &&& frames_events(first.0) + frames_events(second.0) == frames_events(once.0)
            &&& second.1 == once.1
        }),
{
    lemma_split_extend(buf + a, b);
    let first = split_frames(buf + a);
    let second = split_frames(first.1 + b);
    lemma_events_concat(first.0, second.0);
}

/// The first terminator found in `buf` is also found in `buf.take(e)`.
proof fn lemma_frame_end_prefix(buf: Seq<u8>, e: int, i: int)
    requires
        frame_end_from(buf, i) == Some(e),
        0 <= i,
    ensures
        frame_end_from(buf.take(e), i) == Some(e),
    decreases buf.len() - i,
{
    lemma_frame_end_range(buf, i);
    let t = buf.take(e);
    if buf[i] == 10 && buf[i + 1] == 10 {
        assert(t[i] == 10 && t[i + 1] == 10);
    } else if buf[i] == 10 && buf[i + 1] == 13 && i + 2 < buf.len() && buf[i + 2] == 10 {
        assert(t[i] == 10 && t[i + 1] == 13 && t[i + 2] == 10);
    } else {
        lemma_frame_end_prefix(buf, e, i + 1);
        lemma_frame_end_range(buf, i + 1);
        assert(!(t[i] == 10 && t[i + 1] == 10));
        assert(!(t[i] == 10 && t[i + 1] == 13 && i + 2 < t.len() && t[i + 2] == 10));
    }
}

/// Streaming tool-call fragments and new text of a chat delta.
#[derive(Debug, Clone)]
pub struct ChatDelta {
    pub content: Option<String>,
    /// Raw JSON of the delta's `tool_calls`, when present.
    pub tool_calls_json: Option<String>,
}

/// One parsed `choices[]` entry, in either the legacy `text` shape or
/// the chat `delta` shape.
#[derive(Debug, Clone)]
pub struct StreamChoice {
    pub text: Option<String>,
    pub delta: Option<ChatDelta>,
    pub finish_reason: Option<String>,
}

/// What one choice contributes to the token stream.
#[derive(Debug, Clone)]
pub struct StreamPiece {
    pub text: String,
    pub finish: String,
    pub tool_calls_json: String,
}

/// The text of a choice: the chat delta's content when present,
/// else the legacy `text`, else empty.
pub open spec fn choice_text(c: StreamChoice) -> Seq<char> {
    match c.delta {
        Some(d) if d.content is Some => d.content->0@,
        _ => match c.text {
            Some(t) => t@,
            None => Seq::empty(),
        },
    }
}

/// The tool-call fragment of a choice (empty when there is none).
pub open spec fn choice_tool_calls(c: StreamChoice) -> Seq<char> {
    match c.delta {
        Some(d) => match d.tool_calls_json {
            Some(t) => t@,
            None => Seq::empty(),
        },
        None => Seq::empty(),
    }
}

/// The finish reason of a choice (empty when there is none).
pub open spec fn choice_finish(c: StreamChoice) -> Seq<char> {
    match c.finish_reason {
        Some(f) => f@,
        None => Seq::empty(),
    }
}

fn opt_text(o: &Option<String>) -> (s: String)
    ensures
        s@ == match o {
            Some(t) => t@,
            None => Seq::<char>::empty(),
        },
{
    match o {
        Some(t) => t.clone(),
        None => String::new(),
    }
}

/// Turn one choice into a stream piece; a choice with no text, no
/// finish reason and no tool-call fragment (such as the role-only first
/// chat chunk) contributes nothing.
pub fn piece_from_choice(c: &StreamChoice) -> (p: Option<StreamPiece>)
    ensures
        match p {
            Some(p) => {
                &&& p.text@ == choice_text(*c)
                &&& p.finish@ == choice_finish(*c)
                &&& p.tool_calls_json@ == choice_tool_calls(*c)
                &&& !(choice_text(*c).len() == 0 && choice_finish(*c).len() == 0 && choice_tool_calls(
                    *c,
                ).len() == 0)
            },
            None => choice_text(*c).len() == 0 && choice_finish(*c).len() == 0 && choice_tool_calls(
                *c,
            ).len() == 0,
        },
{
    let text = match &c.delta {
        Some(d) => match &d.content {
            Some(t) => t.clone(),
            None => opt_text(&c.text),
        },
        None => opt_text(&c.text),
    };
    let tool_calls_json = match &c.delta {
        Some(d) => opt_text(&d.tool_calls_json),
        None => String::new(),
    };
    let finish = opt_text(&c.finish_reason);
    if text.as_str().is_empty() && finish.as_str().is_empty() && tool_calls_json.as_str().is_empty() {
        return None;
    }
    Some(StreamPiece { text, finish, tool_calls_json })
}

/// Lower-case hexadecimal digit of `n < 16`.
pub open spec fn hex_digit(n: nat) -> char {
    if n < 10 {
        ((48 + n) as u32) as char
    } else {
        ((87 + n) as u32) as char
    }
}

/// Lower-case hexadecimal encoding of `b`, two digits per byte.
pub open spec fn hex_bytes(b: Seq<u8>) -> Seq<char>
    decreases b.len(),
{
    if b.len() == 0 {
        Seq::empty()
    } else {
        hex_bytes(b.drop_last()) + seq![hex_digit((b.last() / 16) as nat), hex_digit((b.last() % 16) as nat)]
    }
}

/// Hex encodings of the 32-byte digests among `ds`, in order; other
/// lengths are dropped.
pub open spec fn digests_hex(ds: Seq<Seq<u8>>) -> Seq<Seq<char>>
    decreases ds.len(),
{
    if ds.len() == 0 {
        Seq::empty()
    } else if ds.last().len() == 32 {
        digests_hex(ds.drop_last()).push(hex_bytes(ds.last()))
    } else {
        digests_hex(ds.drop_last())
    }
}

fn hex_char(n: u8) -> (c: char)
    requires
        n < 16,
    ensures
        c == hex_digit(n as nat),
{
    if n < 10 {
        (48 + n) as char
    } else {
        (87 + n) as char
    }
}

pub(crate) fn hex_string(b: &Vec<u8>) -> (s: String)
    ensures
        s@ == hex_bytes(b@),
{
    let mut v: Vec<char> = Vec::new();
    let mut i: usize = 0;
    while i < b.len()
        invariant
            i <= b@.len(),
            v@ == hex_bytes(b@.take(i as int)),
        decreases b@.len() - i,
    {
        let x = b[i];
        v.push(hex_char(x / 16));
        v.push(hex_char(x % 16));
        assert(b@.take(i + 1).drop_last() =~= b@.take(i as int));
        i = i + 1;
        assert(v@ =~= hex_bytes(b@.take(i as int)));
    }
    assert(b@.take(b@.len() as int) =~= b@);
    string_from_chars(v.as_slice())
}

/// Views of a list of byte strings.
pub open spec fn byte_views(ds: Seq<Vec<u8>>) -> Seq<Seq<u8>> {
    ds.map_values(|d: Vec<u8>| d@)
}

/// Views of a list of strings.
pub open spec fn string_views(ss: Seq<String>) -> Seq<Seq<char>> {
    ss.map_values(|s: String| s@)
}

/// Lower-case hex of every 32-byte digest; other lengths are dropped.
pub fn digest_hex(digests: &[Vec<u8>]) -> (out: Vec<String>)
    ensures
        string_views(out@) == digests_hex(byte_views(digests@)),
{
    let mut out: Vec<String> = Vec::new();
    let mut i: usize = 0;
    while i < digests.len()
        invariant
            i <= digests@.len(),
            string_views(out@) == digests_hex(byte_views(digests@.take(i as int))),
        decreases digests@.len() - i,
    {
        let ghost before = out@;
        assert(byte_views(digests@.take(i + 1)).drop_last() =~= byte_views(digests@.take(i as int)));
        if digests[i].len() == 32 {
            out.push(hex_string(&digests[i]));
            assert(string_views(out@) =~= string_views(before).push(hex_bytes(digests@[i as int]@)));
        }
        i = i + 1;
    }
    assert(digests@.take(digests@.len() as int) =~= digests@);
    out
}

/// vLLM `kv_transfer_params` built from router-supplied prefix digests.
#[derive(Debug, Clone)]
pub struct KvTransferParams {
    /// `cgn_prefix_digests`: hex of the prompt's prefix digests.
    pub prefix_digests: Vec<String>,
    /// `cgn_resident_digests`: hex of the digests already resident, if any.
    pub resident_digests: Option<Vec<String>>,
}

/// Build `kv_transfer_params` from router-supplied prefix digests;
/// nothing is sent when no prefix digest is well-formed.
pub fn kv_transfer_params_from_digests(digests: &[Vec<u8>], resident: &[Vec<u8>]) -> (r: Option<
    KvTransferParams,
>)
    ensures
        match r {
            None => digests_hex(byte_views(digests@)).len() == 0,
            Some(p) => {
                &&& digests_hex(byte_views(digests@)).len() > 0
                &&& string_views(p.prefix_digests@) == digests_hex(byte_views(digests@))
                &&& match p.resident_digests {
                    None => digests_hex(byte_views(resident@)).len() == 0,
                    Some(v) => digests_hex(byte_views(resident@)).len() > 0 && string_views(v@)
                        == digests_hex(byte_views(resident@)),
                }
            },
        },
{
    let prefix_hex = digest_hex(digests);
    if prefix_hex.len() == 0 {
        return None;
    }
    let resident_hex = digest_hex(resident);
    let resident_digests = if resident_hex.len() == 0 {
        None
    } else {
        Some(resident_hex)
    };
    Some(KvTransferParams { prefix_digests: prefix_hex, resident_digests })
}

/// Path of the completion route: chat completions whenever structured
/// messages are present, legacy completions for a raw prompt.
pub fn completion_path(chat_mode: bool) -> (p: &'static str)
    ensures
        p@ == if chat_mode {
            "/v1/chat/completions"@
        } else {
            "/v1/completions"@
        },
{
    if chat_mode {
        "/v1/chat/completions"
    } else {
        "/v1/completions"
    }
}

/// The piece a choice contributes, as (text, finish, tool calls), or none
/// when it carries nothing.
pub open spec fn piece_of(c: StreamChoice) -> Option<(Seq<char>, Seq<char>, Seq<char>)> {
    if choice_text(c).len() == 0 && choice_finish(c).len() == 0 && choice_tool_calls(c).len() == 0 {
        None
    } else {
        Some((choice_text(c), choice_finish(c), choice_tool_calls(c)))
    }
}

/// The pieces of a frame's choices, in order, empty choices skipped.
pub open spec fn choice_pieces(cs: Seq<StreamChoice>) -> Seq<(Seq<char>, Seq<char>, Seq<char>)>
    decreases cs.len(),
{
    if cs.len() == 0 {
        Seq::empty()
    } else {
        let rest = choice_pieces(cs.drop_last());
        match piece_of(cs.last()) {
            Some(p) => rest.push(p),
            None => rest,
        }
    }
}

/// The views of pieces.
pub open spec fn piece_views(v: Seq<StreamPiece>) -> Seq<(Seq<char>, Seq<char>, Seq<char>)> {
    v.map_values(|p: StreamPiece| (p.text@, p.finish@, p.tool_calls_json@))
}

/// What one data payload of an engine's event stream leads to.
#[derive(Debug, Clone)]
pub enum StreamStep {
    /// The stream is over: send this last piece (no text, finish `stop`)
    /// and stop reading.
    Done(StreamPiece),
    /// Send these pieces, in order, and read on.
    Pieces(Vec<StreamPiece>),
}

/// The step for one data payload, given its choices as parsed from JSON
/// (`None` when the payload did not parse): `[DONE]` ends the stream with
/// a single `stop` piece; an unparsable payload is skipped; otherwise
/// each choice that carries text, a finish reason or tool calls becomes
/// a piece, in order.
pub fn stream_step(payload: &str, choices: Option<&[StreamChoice]>) -> (r: StreamStep)
    ensures
        is_done(payload@) ==> (r matches StreamStep::Done(p) && p.text@.len() == 0 && p.finish@ == "stop"@
            && p.tool_calls_json@.len() == 0),
        !is_done(payload@) ==> (r matches StreamStep::Pieces(v) && piece_views(v@) == match choices {
            Some(cs) => choice_pieces(cs@),
            None => Seq::empty(),
        }),
{
    if payload_is_done(payload) {
        return StreamStep::Done(
            StreamPiece { text: String::new(), finish: String::from_str("stop"), tool_calls_json: String::new() },
        );
    }
    let mut out: Vec<StreamPiece> = Vec::new();
    match choices {
        None => {
            assert(piece_views(out@) =~= Seq::empty());
        },
        Some(cs) => {
            let mut i: usize = 0;
            assert(cs@.take(0) =~= Seq::<StreamChoice>::empty());
            assert(piece_views(out@) =~= Seq::empty());
            while i < cs.len()
                invariant
                    i <= cs@.len(),
                    piece_views(out@) == choice_pieces(cs@.take(i as int)),
                decreases cs@.len() - i,
            {
                let ghost before = out@;
                assert(cs@.take(i + 1).drop_last() =~= cs@.take(i as int));
                assert(cs@.take(i + 1).last() == cs@[i as int]);
                match piece_from_choice(&cs[i]) {
                    Some(p) => {
                        out.push(p);
                        assert(piece_views(out@) =~= piece_views(before).push(
                            (p.text@, p.finish@, p.tool_calls_json@),
                        ));
                    },
                    None => {},
                }
                i = i + 1;
            }
            assert(cs@.take(cs@.len() as int) =~= cs@);
        },
    }
    StreamStep::Pieces(out)
}

} // verus!
