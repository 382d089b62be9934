//! Federation decoration of Prometheus exposition text.
//!
//! Every metric line of a scraped body gets a `cgn_target="<name>"`
//! label, so an upstream Prometheus scraping one federated endpoint
//! still sees per-target series. `# HELP` / `# TYPE` lines and blank
//! lines pass through unchanged.
use vstd::prelude::*;

use crate::text::{
    char_is_space, chars_of, copy_range, is_space, leading_space, push_all, push_str,
    skip_space, string_from_chars, trim, trim_bounds, trim_start,
};

verus! {

/// Escaping of one character of a label value.
pub open spec fn escape_char(c: char) -> Seq<char> {
    if c == '\\' {
        seq!['\\', '\\']
    } else if c == '"' {
        seq!['\\', '"']
    } else if c == '\n' {
        seq!['\\', 'n']
    } else {
        seq![c]
    }
}

/// A label value with backslashes, quotes and newlines escaped.
pub open spec fn escape_label(v: Seq<char>) -> Seq<char>
    decreases v.len(),
{
    if v.len() == 0 {
        Seq::empty()
    } else {
        escape_label(v.drop_last()) + escape_char(v.last())
    }
}

/// `cgn_target="<escaped name>"`.
pub open spec fn target_label(target: Seq<char>) -> Seq<char> {
    "cgn_target=\""@ + escape_label(target) + "\""@
}

fn push_escaped(dst: &mut Vec<char>, v: &[char])
    ensures
        final(dst)@ == old(dst)@ + escape_label(v@),
{
    let mut i: usize = 0;
    while i < v.len()
        invariant
            i <= v@.len(),
            dst@ == old(dst)@ + escape_label(v@.take(i as int)),
        decreases v@.len() - i,
    {
        let c = v[i];
        if c == '\\' {
            dst.push('\\');
            dst.push('\\');
        } else if c == '"' {
            dst.push('\\');
            dst.push('"');
        } else if c == '\n' {
            dst.push('\\');
            dst.push('n');
        } else {
            dst.push(c);
        }
        assert(v@.take(i + 1).drop_last() =~= v@.take(i as int));
        i = i + 1;
        assert(dst@ =~= old(dst)@ + escape_label(v@.take(i as int)));
    }
    assert(v@.take(v@.len() as int) =~= v@);
}

/// Escape a label value for the exposition format.
pub fn escape_label_value(v: &str) -> (s: String)
    ensures
        s@ == escape_label(v@),
{
    let cs = chars_of(v);
    let mut out: Vec<char> = Vec::new();
    push_escaped(&mut out, cs.as_slice());
    assert(out@ =~= escape_label(v@));
    string_from_chars(out.as_slice())
}

/// Index of the first `c` in `s` (or `None`).
pub open spec fn find_first(s: Seq<char>, c: char, i: int) -> Option<int>
    decreases s.len() - i,
{
    if i < 0 || i >= s.len() {
        None
    } else if s[i] == c {
        Some(i)
    } else {
        find_first(s, c, i + 1)
    }
}

/// Index of the first whitespace character of `s` at or after `i`.
pub open spec fn find_space(s: Seq<char>, i: int) -> Option<int>
    decreases s.len() - i,
{
    if i < 0 || i >= s.len() {
        None
    } else if is_space(s[i]) {
        Some(i)
    } else {
        find_space(s, i + 1)
    }
}

/// The decorated form of one metric line, or `None` when the line is
/// malformed (a `}` before the `{`, or no labels and no whitespace).
pub open spec fn spec_decorate_one(line: Seq<char>, target: Seq<char>) -> Option<Seq<char>> {
    let label = target_label(target);
    match find_first(line, '{', 0) {
        Some(open) => match find_first(line, '}', 0) {
            None => None,
            Some(close) => if close < open {
                None
            } else {
                let inside = line.subrange(open + 1, close);
                Some(
                    line.take(open + 1) + (if trim(inside).len() != 0 {
                        inside + seq![',']
                    } else {
                        Seq::empty()
                    }) + label + line.skip(close),
                )
            },
        },
        None => match find_space(line, 0) {
            None => None,
            Some(w) => Some(line.take(w) + seq!['{'] + label + seq!['}', ' '] + line.skip(w + 1)),
        },
    }
}

fn find_char_from(s: &[char], c: char) -> (r: Option<usize>)
    ensures
        match r {
            Some(i) => find_first(s@, c, 0) == Some(i as int) && i < s@.len() && i < s.len(),
            None => find_first(s@, c, 0) is None,
        },
{
    let mut i: usize = 0;
    while i < s.len()
        invariant
            i <= s@.len(),
            find_first(s@, c, 0) == find_first(s@, c, i as int),
        decreases s@.len() - i,
    {
        if s[i] == c {
            return Some(i);
        }
        i = i + 1;
    }
    None
}

fn find_space_from(s: &[char]) -> (r: Option<usize>)
    ensures
        match r {
            Some(i) => find_space(s@, 0) == Some(i as int) && i < s@.len() && i < s.len(),
            None => find_space(s@, 0) is None,
        },
{
    let mut i: usize = 0;
    while i < s.len()
        invariant
            i <= s@.len(),
            find_space(s@, 0) == find_space(s@, i as int),
        decreases s@.len() - i,
    {
        if char_is_space(s[i]) {
            return Some(i);
        }
        i = i + 1;
    }
    None
}

proof fn lemma_find_first_range(s: Seq<char>, c: char, i: int)
    requires
        0 <= i,
    ensures
        find_first(s, c, i) matches Some(k) ==> i <= k < s.len() && s[k] == c,
    decreases s.len() - i,
{
    if i < s.len() && s[i] != c {
        lemma_find_first_range(s, c, i + 1);
    }
}

/// Inject `cgn_target` into a single `name{labels} value` (or
/// `name value`) line; `None` when the line is malformed.
pub fn decorate_one(line: &[char], target: &[char]) -> (r: Option<Vec<char>>)
    ensures
        match r {
            Some(v) => spec_decorate_one(line@, target@) == Some(v@),
            None => spec_decorate_one(line@, target@) is None,
        },
{
    let mut label: Vec<char> = Vec::new();
    push_str(&mut label, "cgn_target=\"");
    push_escaped(&mut label, target);
    push_str(&mut label, "\"");
    assert(label@ == target_label(target@));
    match find_char_from(line, '{') {
        Some(open) => {
            let close = match find_char_from(line, '}') {
                Some(c) => c,
                None => return None,
            };
            if close < open {
                return None;
            }
            proof {
                lemma_find_first_range(line@, '{', 0);
                lemma_find_first_range(line@, '}', 0);
            }
            let inside = copy_range(line, open + 1, close);
            let mut out = copy_range(line, 0, open + 1);
            let (a, b) = trim_bounds(inside.as_slice());
            if a < b {
                push_all(&mut out, inside.as_slice());
                out.push(',');
            }
            push_all(&mut out, label.as_slice());
            let tail = copy_range(line, close, line.len());
            push_all(&mut out, tail.as_slice());
            proof {
                let sp = spec_decorate_one(line@, target@);
                let mid = if trim(inside@).len() != 0 {
                    inside@ + seq![',']
                } else {
                    Seq::empty()
                };
                assert(out@ =~= line@.take(open + 1) + mid + label@ + line@.skip(close as int));
            }
            Some(out)
        },
        None => {
            let w = match find_space_from(line) {
                Some(w) => w,
                None => return None,
            };
            let mut out = copy_range(line, 0, w);
            out.push('{');
            push_all(&mut out, label.as_slice());
            out.push('}');
            out.push(' ');
            let tail = copy_range(line, w + 1, line.len());
            push_all(&mut out, tail.as_slice());
            assert(out@ =~= line@.take(w as int) + seq!['{'] + label@ + seq!['}', ' '] + line@.skip(
                w + 1,
            ));
            Some(out)
        },
    }
}

/// Lines of `s` as `str::lines` yields them: split at `\n`, a `\r`
/// before the `\n` dropped, no empty line after a final `\n`.
pub open spec fn lines_of(s: Seq<char>) -> Seq<Seq<char>>
    decreases s.len(),
{
    if s.len() == 0 {
        Seq::empty()
    } else {
        match find_first(s, '\n', 0) {
            None => seq![s],
            Some(k) => {
                let raw = s.take(k);
                let line = if raw.len() > 0 && raw.last() == '\r' {
                    raw.drop_last()
                } else {
                    raw
                };
                if 0 <= k < s.len() {
                    seq![line] + lines_of(s.skip(k + 1))
                } else {
                    seq![line]
                }
            },
        }
    }
}

/// Is the line a comment (`#`) or blank, after leading whitespace?
pub open spec fn passes_through(line: Seq<char>) -> bool {
    trim_start(line).len() == 0 || trim_start(line)[0] == '#'
}

/// One output line for one input line.
pub open spec fn decorated_line(line: Seq<char>, target: Seq<char>) -> Seq<char> {
    if passes_through(line) {
        line
    } else {
        match spec_decorate_one(line, target) {
            Some(d) => d,
            None => line,
        }
    }
}

/// Decorated lines, each followed by a newline.
pub open spec fn decorated_lines(lines: Seq<Seq<char>>, target: Seq<char>) -> Seq<char>
    decreases lines.len(),
{
    if lines.len() == 0 {
        Seq::empty()
    } else {
        decorated_lines(lines.drop_last(), target) + decorated_line(lines.last(), target) + seq!['\n']
    }
}

/// The whole decorated body: a header comment naming the target, then
/// every line of `body` decorated.
pub open spec fn spec_decorate(body: Seq<char>, target: Seq<char>) -> Seq<char> {
    "# cgn-metrics: federated from target "@ + target + seq!['\n'] + decorated_lines(
        lines_of(body),
        target,
    )
}

proof fn lemma_lines_of_append(s: Seq<char>, k: int)
    requires
        find_first(s, '\n', 0) == Some(k),
        0 <= k < s.len(),
    ensures
        lines_of(s) == seq![
            if s.take(k).len() > 0 && s.take(k).last() == '\r' {
                s.take(k).drop_last()
            } else {
                s.take(k)
            },
        ] + lines_of(s.skip(k + 1)),
{
}

/// Views of a list of character vectors.
pub open spec fn char_views(v: Seq<Vec<char>>) -> Seq<Seq<char>> {
    v.map_values(|l: Vec<char>| l@)
}

/// The lines of `s`, as `str::lines` yields them.
pub fn split_lines(s: &[char]) -> (out: Vec<Vec<char>>)
    ensures
        char_views(out@) == lines_of(s@),
{
    let mut out: Vec<Vec<char>> = Vec::new();
    let mut from: usize = 0;
    assert(s@.skip(0) =~= s@);
    assert(Seq::<Seq<char>>::empty() + lines_of(s@) =~= lines_of(s@));
    while from < s.len()
        invariant
            from <= s@.len(),
            lines_of(s@) == char_views(out@) + lines_of(s@.skip(from as int)),
        decreases s@.len() - from,
    {
        let rest = copy_range(s, from, s.len());
        assert(rest@ == s@.skip(from as int));
        let (line, next) = match find_char_from(rest.as_slice(), '\n') {
            Some(k) => {
                let raw = copy_range(rest.as_slice(), 0, k);
                let line = if raw.len() > 0 && raw[raw.len() - 1] == '\r' {
                    copy_range(raw.as_slice(), 0, raw.len() - 1)
                } else {
                    raw
                };
                proof {
                    assert(rest@.skip(k + 1) =~= s@.skip(from + k + 1));
                    if raw@.len() > 0 && raw@.last() == '\r' {
                        assert(line@ =~= raw@.drop_last());
                    }
                    lemma_lines_of_append(rest@, k as int);
                }
                (line, from + k + 1)
            },
            None => {
                assert(s@.skip(s@.len() as int) =~= Seq::<char>::empty());
                (rest, s.len())
            },
        };
        proof {
            assert(lines_of(s@.skip(from as int)) == seq![line@] + lines_of(s@.skip(next as int)));
        }
        let ghost before = out@;
        out.push(line);
        proof {
            assert(char_views(out@) =~= char_views(before).push(line@));
            assert(char_views(before) + lines_of(s@.skip(from as int)) =~= char_views(out@)
                + lines_of(s@.skip(next as int)));
        }
        from = next;
    }
    assert(s@.skip(s@.len() as int) =~= Seq::<char>::empty());
    assert(char_views(out@) + Seq::<Seq<char>>::empty() =~= char_views(out@));
    out
}

/// Insert `cgn_target="<name>"` into every metric line of a Prometheus
/// exposition body. `# HELP` / `# TYPE` lines pass through unchanged so
/// the output is still valid text-format exposition.
pub fn decorate_with_target(body: &str, target: &str) -> (out: String)
    ensures
        out@ == spec_decorate(body@, target@),
{
    let b = chars_of(body);
    let t = chars_of(target);
    let mut out: Vec<char> = Vec::new();
    push_str(&mut out, "# cgn-metrics: federated from target ");
    push_all(&mut out, t.as_slice());
    out.push('\n');
    let ghost head = out@;
    let mut from: usize = 0;
    let ghost mut done: Seq<Seq<char>> = Seq::empty();
    assert(b@.skip(0) =~= b@);
    assert(Seq::<Seq<char>>::empty() + lines_of(b@) =~= lines_of(b@));
    assert(out@ =~= head + decorated_lines(done, target@));
    while from < b.len()
        invariant
            from <= b@.len(),
            head == "# cgn-metrics: federated from target "@ + target@ + seq!['\n'],
            t@ == target@,
            lines_of(b@) == done + lines_of(b@.skip(from as int)),
            out@ == head + decorated_lines(done, target@),
            b@ == body@,
        decreases b@.len() - from,
    {
        let rest = copy_range(b.as_slice(), from, b.len());
        assert(rest@ == b@.skip(from as int));
        let (line, next) = match find_char_from(rest.as_slice(), '\n') {
            Some(k) => {
                let raw = copy_range(rest.as_slice(), 0, k);
                let line = if raw.len() > 0 && raw[raw.len() - 1] == '\r' {
                    copy_range(raw.as_slice(), 0, raw.len() - 1)
                } else {
                    raw
                };
                proof {
                    assert(rest@.skip(k + 1) =~= b@.skip(from + k + 1));
                    if raw@.len() > 0 && raw@.last() == '\r' {
                        assert(line@ =~= raw@.drop_last());
                    }
                }
                (line, from + k + 1)
            },
            None => {
                assert(b@.skip(b@.len() as int) =~= Seq::<char>::empty());
                (rest, b.len())
            },
        };
        proof {
            assert(lines_of(b@.skip(from as int)) == seq![line@] + lines_of(b@.skip(next as int)));
            assert(done + lines_of(b@.skip(from as int)) =~= done.push(line@) + lines_of(
                b@.skip(next as int),
            ));
        }
        let s = skip_space(line.as_slice());
        let pass = s >= line.len() || line[s] == '#';
        let decorated = if pass {
            line
        } else {
            match decorate_one(line.as_slice(), t.as_slice()) {
                Some(d) => d,
                None => line,
            }
        };
        proof {
            crate::text::lemma_leading_space_bound(line@);
            assert(trim_start(line@).len() == line@.len() - leading_space(line@));
            if s < line@.len() {
                assert(trim_start(line@)[0] == line@[s as int]);
            }
        }
        push_all(&mut out, decorated.as_slice());
        out.push('\n');
        proof {
            assert(done.push(line@).drop_last() =~= done);
            done = done.push(line@);
        }
        from = next;
    }
    assert(b@.skip(b@.len() as int) =~= Seq::<char>::empty());
    assert(done + Seq::<Seq<char>>::empty() =~= done);
    string_from_chars(out.as_slice())
}

/// The federated body: the bodies of the targets that answered, in
/// target order, separated by a line break.
pub open spec fn spec_join_scraped(results: Seq<Option<Seq<char>>>) -> Seq<char>
    decreases results.len(),
{
    if results.len() == 0 {
        Seq::empty()
    } else {
        let prev = spec_join_scraped(results.drop_last());
        match results.last() {
            None => prev,
            Some(b) => if prev.len() == 0 {
                b
            } else {
                prev + seq!['\n'] + b
            },
        }
    }
}

/// Views of the scrape results.
pub open spec fn result_views(results: Seq<Option<String>>) -> Seq<Option<Seq<char>>> {
    results.map_values(|r: Option<String>| match r {
        Some(b) => Some(b@),
        None => None,
    })
}

/// Join the decorated bodies of one scrape round; targets that failed
/// (`None`) are skipped.
pub fn join_scraped(results: &[Option<String>]) -> (out: String)
    ensures
        out@ == spec_join_scraped(result_views(results@)),
{
    let mut v: Vec<char> = Vec::new();
    let mut i: usize = 0;
    while i < results.len()
        invariant
            i <= results@.len(),
            v@ == spec_join_scraped(result_views(results@.take(i as int))),
        decreases results@.len() - i,
    {
        assert(result_views(results@.take(i + 1)).drop_last() =~= result_views(results@.take(i as int)));
        match &results[i] {
            Some(b) => {
                if v.len() > 0 {
                    v.push('\n');
                }
                push_str(&mut v, b.as_str());
            },
            None => {},
        }
        i = i + 1;
    }
    assert(results@.take(results@.len() as int) =~= results@);
    string_from_chars(v.as_slice())
}

/// The `/federate` answer for the cached body: 503 with an explanation
/// while nothing has been scraped, else 200 with the body as Prometheus
/// text format 0.0.4.
pub fn federate_reply(cached: &str) -> (r: (u16, Option<&'static str>, String))
    ensures
        cached@.len() == 0 ==> r.0 == 503 && r.1 is None && r.2@
            == "no scrape targets configured or first scrape pending"@,
        cached@.len() > 0 ==> r.0 == 200 && r.1 == Some("text/plain; version=0.0.4") && r.2@ == cached@,
{
    if cached.is_empty() {
        return (503, None, String::from_str("no scrape targets configured or first scrape pending"));
    }
    (200, Some("text/plain; version=0.0.4"), cached.to_string())
}

} // verus!
