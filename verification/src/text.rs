//! Character-level string helpers shared by the text-processing modules.
use vstd::prelude::*;

verus! {

/// Collects the characters of `s` in order.
pub fn chars_of(s: &str) -> (out: Vec<char>)
    ensures
        out@ == s@,
{
    let mut out: Vec<char> = Vec::new();
    for c in it: s.chars()
        invariant
            out@ == it.seq().take(it.index() as int),
            it.seq() == s@,
    {
        out.push(c);
    }
    out
}

/// Builds a `String` holding exactly the characters of `chars`, by
/// `Iterator::collect` on the slice's iterator, which std documents as
/// pushing each character in order.
#[verifier::external_body]
pub(crate) fn string_from_chars(chars: &[char]) -> (s: String)
    ensures
        s@ == chars@,
{
    chars.iter().collect()
}


/// Whether two character slices hold the same characters.
pub fn same_chars(a: &[char], b: &[char]) -> (eq: bool)
    ensures
        eq == (a@ == b@),
{
    if a.len() != b.len() {
        return false;
    }
    let mut i: usize = 0;
    while i < a.len()
        invariant
            a@.len() == b@.len(),
            i <= a@.len(),
            forall|k: int| 0 <= k < i ==> a@[k] == b@[k],
        decreases a@.len() - i,
    {
        if a[i] != b[i] {
            return false;
        }
        i = i + 1;
    }
    assert(a@ =~= b@);
    true
}

/// Whether two strings hold the same characters.
pub fn str_eq(a: &str, b: &str) -> (eq: bool)
    ensures
        eq == (a@ == b@),
{
    let x = chars_of(a);
    let y = chars_of(b);
    same_chars(x.as_slice(), y.as_slice())
}

/// Unicode `White_Space`, the set `char::is_whitespace` accepts.
pub open spec fn is_space(c: char) -> bool {
    ||| c == ' '
    ||| ('\t' <= c && c <= '\r')
    ||| c == '\u{85}'
    ||| c == '\u{a0}'
    ||| c == '\u{1680}'
    ||| ('\u{2000}' <= c && c <= '\u{200a}')
    ||| c == '\u{2028}'
    ||| c == '\u{2029}'
    ||| c == '\u{202f}'
    ||| c == '\u{205f}'
    ||| c == '\u{3000}'
}

/// Whether `c` is whitespace (Unicode `White_Space`).
pub fn char_is_space(c: char) -> (b: bool)
    ensures
        b == is_space(c),
{
    c == ' ' || ('\t' <= c && c <= '\r') || c == '\u{85}' || c == '\u{a0}' || c == '\u{1680}' || (
    '\u{2000}' <= c && c <= '\u{200a}') || c == '\u{2028}' || c == '\u{2029}' || c == '\u{202f}'
        || c == '\u{205f}' || c == '\u{3000}'
}

/// Number of leading whitespace characters of `s`.
pub open spec fn leading_space(s: Seq<char>) -> nat
    decreases s.len(),
{
    if s.len() > 0 && is_space(s[0]) {
        1 + leading_space(s.drop_first())
    } else {
        0
    }
}

/// Number of trailing whitespace characters of `s`.
pub open spec fn trailing_space(s: Seq<char>) -> nat
    decreases s.len(),
{
    if s.len() > 0 && is_space(s.last()) {
        1 + trailing_space(s.drop_last())
    } else {
        0
    }
}

/// `s` without its leading whitespace.
pub open spec fn trim_start(s: Seq<char>) -> Seq<char> {
    s.skip(leading_space(s) as int)
}

/// `s` without its trailing whitespace.
pub open spec fn trim_end(s: Seq<char>) -> Seq<char> {
    s.take(s.len() - trailing_space(s))
}

/// `s` without leading and trailing whitespace.
pub open spec fn trim(s: Seq<char>) -> Seq<char> {
    trim_end(trim_start(s))
}

pub proof fn lemma_leading_space_bound(s: Seq<char>)
    ensures
        leading_space(s) <= s.len(),
        forall|i: int| 0 <= i < leading_space(s) ==> is_space(#[trigger] s[i]),
        leading_space(s) < s.len() ==> !is_space(s[leading_space(s) as int]),
    decreases s.len(),
{
    if s.len() > 0 && is_space(s[0]) {
        lemma_leading_space_bound(s.drop_first());
        assert forall|i: int| 0 <= i < leading_space(s) implies is_space(#[trigger] s[i]) by {
            if i > 0 {
                assert(s[i] == s.drop_first()[i - 1]);
            }
        }
    }
}

pub proof fn lemma_trailing_space_bound(s: Seq<char>)
    ensures
        trailing_space(s) <= s.len(),
        forall|i: int| s.len() - trailing_space(s) <= i < s.len() ==> is_space(#[trigger] s[i]),
        trailing_space(s) < s.len() ==> !is_space(s[s.len() - trailing_space(s) - 1]),
    decreases s.len(),
{
    if s.len() > 0 && is_space(s.last()) {
        lemma_trailing_space_bound(s.drop_last());
        assert forall|i: int| s.len() - trailing_space(s) <= i < s.len() implies is_space(
            #[trigger] s[i],
        ) by {
            if i < s.len() - 1 {
                assert(s[i] == s.drop_last()[i]);
            }
        }
    }
}

proof fn lemma_leading_space_step(s: Seq<char>, i: int)
    requires
        0 <= i <= s.len(),
        forall|j: int| 0 <= j < i ==> is_space(#[trigger] s[j]),
    ensures
        i < s.len() && !is_space(s[i]) ==> leading_space(s) == i,
        i == s.len() ==> leading_space(s) == i,
    decreases i,
{
    if i > 0 {
        assert forall|j: int| 0 <= j < i - 1 implies is_space(#[trigger] s.drop_first()[j]) by {
            assert(s.drop_first()[j] == s[j + 1]);
        }
        lemma_leading_space_step(s.drop_first(), i - 1);
    }
}

proof fn lemma_trailing_space_step(s: Seq<char>, i: int)
    requires
        0 <= i <= s.len(),
        forall|j: int| i <= j < s.len() ==> is_space(#[trigger] s[j]),
    ensures
        i > 0 && !is_space(s[i - 1]) ==> trailing_space(s) == s.len() - i,
        i == 0 ==> trailing_space(s) == s.len(),
    decreases s.len() - i,
{
    if i < s.len() {
        assert forall|j: int| i <= j < s.len() - 1 implies is_space(#[trigger] s.drop_last()[j]) by {
            assert(s.drop_last()[j] == s[j]);
        }
        lemma_trailing_space_step(s.drop_last(), i);
    }
}

/// Index of the first non-whitespace character of `s` (or its length).
pub fn skip_space(s: &[char]) -> (i: usize)
    ensures
        i == leading_space(s@),
{
    let mut i: usize = 0;
    while i < s.len() && char_is_space(s[i])
        invariant
            i <= s@.len(),
            forall|j: int| 0 <= j < i ==> is_space(#[trigger] s@[j]),
        decreases s@.len() - i,
    {
        i = i + 1;
    }
    proof {
        lemma_leading_space_step(s@, i as int);
    }
    i
}

/// Index just past the last non-whitespace character of `s` (or 0).
pub fn trimmed_end(s: &[char]) -> (e: usize)
    ensures
        e == s@.len() - trailing_space(s@),
{
    let mut e: usize = s.len();
    while e > 0 && char_is_space(s[e - 1])
        invariant
            e <= s@.len(),
            forall|j: int| e <= j < s@.len() ==> is_space(#[trigger] s@[j]),
        decreases e,
    {
        e = e - 1;
    }
    proof {
        lemma_trailing_space_step(s@, e as int);
    }
    e
}

/// Bounds `(start, end)` of `s` with surrounding whitespace trimmed.
pub fn trim_bounds(s: &[char]) -> (b: (usize, usize))
    ensures
        b.0 <= b.1 <= s@.len(),
        s@.subrange(b.0 as int, b.1 as int) == trim(s@),
{
    let start = skip_space(s);
    proof {
        lemma_leading_space_bound(s@);
    }
    let rest = &s[start..s.len()];
    let end = trimmed_end(rest);
    proof {
        lemma_trailing_space_bound(rest@);
        assert(s@.subrange(start as int, (start + end) as int) =~= trim(s@));
    }
    (start, start + end)
}

/// Copies `s[from..to]` into a new vector.
pub fn copy_range(s: &[char], from: usize, to: usize) -> (out: Vec<char>)
    requires
        from <= to <= s@.len(),
    ensures
        out@ == s@.subrange(from as int, to as int),
{
    let mut out: Vec<char> = Vec::new();
    let mut i = from;
    while i < to
        invariant
            from <= i <= to <= s@.len(),
            out@ == s@.subrange(from as int, i as int),
        decreases to - i,
    {
        out.push(s[i]);
        i = i + 1;
        assert(out@ =~= s@.subrange(from as int, i as int));
    }
    out
}

/// Appends all of `src` to `dst`.
pub fn push_all(dst: &mut Vec<char>, src: &[char])
    ensures
        final(dst)@ == old(dst)@ + src@,
{
    let mut i: usize = 0;
    while i < src.len()
        invariant
            i <= src@.len(),
            dst@ == old(dst)@ + src@.take(i as int),
        decreases src@.len() - i,
    {
        dst.push(src[i]);
        i = i + 1;
        assert(dst@ =~= old(dst)@ + src@.take(i as int));
    }
    assert(src@.take(src@.len() as int) =~= src@);
}

/// Appends the characters of `src` to `dst`.
pub fn push_str(dst: &mut Vec<char>, src: &str)
    ensures
        final(dst)@ == old(dst)@ + src@,
{
    let cs = chars_of(src);
    push_all(dst, cs.as_slice());
}

/// The decimal digit character for `d < 10`.
pub open spec fn digit_char(d: nat) -> char {
    ((d + 48) as u32) as char
}

/// Decimal representation of `n`, without sign or leading zeros.
pub open spec fn decimal(n: nat) -> Seq<char>
    decreases n,
{
    if n < 10 {
        seq![digit_char(n)]
    } else {
        decimal(n / 10).push(digit_char(n % 10))
    }
}

fn digit(d: u64) -> (c: char)
    requires
        d < 10,
    ensures
        c == digit_char(d as nat),
{
    if d == 0 { '0' } else if d == 1 { '1' } else if d == 2 { '2' } else if d == 3 { '3' } else if d == 4 { '4' }
    else if d == 5 { '5' } else if d == 6 { '6' } else if d == 7 { '7' } else if d == 8 { '8' } else { '9' }
}

/// Appends the decimal representation of `n` to `dst`.
pub fn push_decimal(dst: &mut Vec<char>, n: u64)
    ensures
        final(dst)@ == old(dst)@ + decimal(n as nat),
    decreases n,
{
    if n >= 10 {
        push_decimal(dst, n / 10);
    }
    dst.push(digit(n % 10));
}

/// The decimal representation of `n` as a string.
pub fn decimal_string(n: u64) -> (s: String)
    ensures
        s@ == decimal(n as nat),
{
    let mut v: Vec<char> = Vec::new();
    push_decimal(&mut v, n);
    assert(v@ =~= decimal(n as nat));
    string_from_chars(v.as_slice())
}

/// Is `c` an ASCII decimal digit?
pub open spec fn is_digit(c: char) -> bool {
    '0' <= c && c <= '9'
}

/// Why a decimal number did not parse (the kinds `usize::from_str` reports).
#[derive(Debug, Clone, Copy, PartialEq, Eq, Structural)]
pub enum ParseIntKind {
    /// The input was empty.
    Empty,
    /// A character is not a decimal digit (or the input is a lone sign).
    InvalidDigit,
    /// The value does not fit the target type.
    PosOverflow,
}

/// The message `ParseIntError` displays for each kind.
pub open spec fn parse_error_text(kind: ParseIntKind) -> Seq<char> {
    match kind {
        ParseIntKind::Empty => "cannot parse integer from empty string"@,
        ParseIntKind::InvalidDigit => "invalid digit found in string"@,
        ParseIntKind::PosOverflow => "number too large to fit in target type"@,
    }
}

/// The message of a parse failure.
pub fn parse_error_message(kind: ParseIntKind) -> (s: String)
    ensures
        s@ == parse_error_text(kind),
{
    match kind {
        ParseIntKind::Empty => String::from_str("cannot parse integer from empty string"),
        ParseIntKind::InvalidDigit => String::from_str("invalid digit found in string"),
        ParseIntKind::PosOverflow => String::from_str("number too large to fit in target type"),
    }
}

/// Left-to-right accumulation of the digits `body[i..]` onto `acc`,
/// failing at the first non-digit or at the first overflow.
pub open spec fn scan_digits(body: Seq<char>, i: int, acc: nat) -> Result<usize, ParseIntKind>
    decreases body.len() - i,
{
    if i >= body.len() || i < 0 {
        Ok(acc as usize)
    } else if !is_digit(body[i]) {
        Err(ParseIntKind::InvalidDigit)
    } else if acc * 10 + ((body[i] as u32) - 48) > usize::MAX {
        Err(ParseIntKind::PosOverflow)
    } else {
        scan_digits(body, i + 1, (acc * 10 + ((body[i] as u32) - 48)) as nat)
    }
}

/// What `usize::from_str` does: empty input is `Empty`; a lone `+` or
/// `-` is `InvalidDigit`; one leading `+` is skipped; the digits are
/// then accumulated left to right.
pub open spec fn spec_parse_usize(s: Seq<char>) -> Result<usize, ParseIntKind> {
    if s.len() == 0 {
        Err(ParseIntKind::Empty)
    } else if s.len() == 1 && (s[0] == '+' || s[0] == '-') {
        Err(ParseIntKind::InvalidDigit)
    } else if s[0] == '+' {
        scan_digits(s, 1, 0)
    } else {
        scan_digits(s, 0, 0)
    }
}

/// Parses a decimal `usize` exactly as `usize::from_str` does.
pub fn parse_usize(s: &[char]) -> (r: Result<usize, ParseIntKind>)
    ensures
        r == spec_parse_usize(s@),
{
    if s.len() == 0 {
        return Err(ParseIntKind::Empty);
    }
    if s.len() == 1 && (s[0] == '+' || s[0] == '-') {
        return Err(ParseIntKind::InvalidDigit);
    }
    let start: usize = if s[0] == '+' { 1 } else { 0 };
    let mut i = start;
    let mut acc: usize = 0;
    while i < s.len()
        invariant
            start <= i <= s@.len(),
            spec_parse_usize(s@) == scan_digits(s@, i as int, acc as nat),
        decreases s@.len() - i,
    {
        let c = s[i];
        if !('0' <= c && c <= '9') {
            return Err(ParseIntKind::InvalidDigit);
        }
        let d = (c as u32 - 48) as usize;
        match acc.checked_mul(10) {
            Some(t) => match t.checked_add(d) {
                Some(n) => {
                    acc = n;
                },
                None => {
                    return Err(ParseIntKind::PosOverflow);
                },
            },
            None => {
                return Err(ParseIntKind::PosOverflow);
            },
        }
        i = i + 1;
    }
    Ok(acc)
}

/// Index of the first `c` in `s` at or after `i` (`s.len()` when none).
pub open spec fn sep_from(s: Seq<char>, c: char, i: int) -> int
    decreases s.len() - i,
{
    if i < 0 || i >= s.len() {
        s.len() as int
    } else if s[i] == c {
        i
    } else {
        sep_from(s, c, i + 1)
    }
}

pub proof fn lemma_sep_from_bounds(s: Seq<char>, c: char, i: int)
    requires
        0 <= i <= s.len(),
    ensures
        i <= sep_from(s, c, i) <= s.len(),
        sep_from(s, c, i) < s.len() ==> s[sep_from(s, c, i)] == c,
    decreases s.len() - i,
{
    if i < s.len() && s[i] != c {
        lemma_sep_from_bounds(s, c, i + 1);
    }
}

/// The pieces of `s[start..]` separated by `c`, as `str::split` yields
/// them (always at least one).
pub open spec fn pieces_from(s: Seq<char>, c: char, start: int) -> Seq<Seq<char>>
    decreases s.len() - start,
{
    if start < 0 || start > s.len() {
        Seq::empty()
    } else {
        let e = sep_from(s, c, start);
        if e >= s.len() || e < start {
            seq![s.subrange(start, s.len() as int)]
        } else {
            seq![s.subrange(start, e)] + pieces_from(s, c, e + 1)
        }
    }
}

/// The pieces of `s` separated by `c`.
pub open spec fn split_on(s: Seq<char>, c: char) -> Seq<Seq<char>> {
    pieces_from(s, c, 0)
}

/// The trimmed pieces that are not blank, in order.
pub open spec fn nonblank_trimmed(ps: Seq<Seq<char>>) -> Seq<Seq<char>>
    decreases ps.len(),
{
    if ps.len() == 0 {
        Seq::empty()
    } else {
        let rest = nonblank_trimmed(ps.drop_first());
        if trim(ps[0]).len() > 0 {
            seq![trim(ps[0])] + rest
        } else {
            rest
        }
    }
}

/// Views of a list of strings.
pub open spec fn text_views(v: Seq<String>) -> Seq<Seq<char>> {
    v.map_values(|t: String| t@)
}

/// The comma-separated entries of `s`, trimmed, blank ones dropped.
pub fn comma_list(s: &str) -> (out: Vec<String>)
    ensures
        text_views(out@) == nonblank_trimmed(split_on(s@, ',')),
{
    let v = chars_of(s);
    let mut out: Vec<String> = Vec::new();
    let mut start: usize = 0;
    loop
        invariant
            v@ == s@,
            start <= v@.len(),
            text_views(out@) + nonblank_trimmed(pieces_from(v@, ',', start as int)) == nonblank_trimmed(
                split_on(v@, ','),
            ),
        decreases v@.len() - start,
    {
        let mut e: usize = start;
        while e < v.len() && v[e] != ','
            invariant
                start <= e <= v@.len(),
                sep_from(v@, ',', start as int) == sep_from(v@, ',', e as int),
            decreases v@.len() - e,
        {
            e = e + 1;
        }
        proof {
            lemma_sep_from_bounds(v@, ',', start as int);
        }
        let piece = copy_range(v.as_slice(), start, e);
        let (a, b) = trim_bounds(piece.as_slice());
        let ghost before = out@;
        if a < b {
            let t = copy_range(piece.as_slice(), a, b);
            out.push(string_from_chars(t.as_slice()));
        }
        proof {
            let ps = pieces_from(v@, ',', start as int);
            assert(piece@ == v@.subrange(start as int, e as int));
            assert(ps[0] == piece@);
            assert(nonblank_trimmed(ps).len() >= 0);
            if e < v@.len() {
                assert(ps == seq![piece@] + pieces_from(v@, ',', e + 1));
                assert(ps.drop_first() =~= pieces_from(v@, ',', e + 1));
            } else {
                assert(ps == seq![piece@]);
                assert(ps.drop_first() =~= Seq::<Seq<char>>::empty());
            }
            if a < b {
                assert(text_views(out@) =~= text_views(before).push(trim(piece@)));
            }
        }
        if e >= v.len() {
            proof {
                assert(nonblank_trimmed(Seq::<Seq<char>>::empty()) =~= Seq::<Seq<char>>::empty());
                assert(text_views(out@) =~= text_views(out@) + Seq::<Seq<char>>::empty());
            }
            return out;
        }
        start = e + 1;
    }
}

} // verus!
