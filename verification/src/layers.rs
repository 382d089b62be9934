//! Layer ranges for pipeline-parallel serving: a model's layers are
//! split into contiguous half-open ranges, one per pipeline stage.
use vstd::prelude::*;

use crate::error::Error;
use crate::text::{
    chars_of, copy_range, decimal, parse_error_message, parse_error_text, parse_usize, push_all,
    push_decimal, push_str, spec_parse_usize, string_from_chars, trim, trim_bounds,
};

verus! {

/// Half-open layer interval `[start, end)`.
#[derive(Debug, Clone, Copy, PartialEq, Eq, Structural)]
pub struct LayerRange {
    pub start: usize,
    pub end: usize,
}

/// `"A:B"`, the textual form of a range.
pub open spec fn range_text(start: usize, end: usize) -> Seq<char> {
    decimal(start as nat) + ":"@ + decimal(end as nat)
}

/// Message for an empty range.
pub open spec fn empty_range_message(start: usize, end: usize) -> Seq<char> {
    "layer range "@ + range_text(start, end) + " is empty"@
}

/// Index of the first `c` in `s`, if any.
pub open spec fn first_index_of(s: Seq<char>, c: char) -> Option<int> {
    if exists|i: int| 0 <= i < s.len() && s[i] == c {
        Some(choose|i: int| 0 <= i < s.len() && s[i] == c && forall|j: int| 0 <= j < i ==> s[j] != c)
    } else {
        None
    }
}

/// What `LayerRange::parse` yields for `s`: the message of the error, or the range.
pub open spec fn spec_parse_range(s: Seq<char>) -> Result<(usize, usize), Seq<char>> {
    match first_index_of(s, ':') {
        None => Err("layer range `"@ + s + "` must be of the form A:B"@),
        Some(k) => {
            let a = s.take(k);
            let b = s.skip(k + 1);
            match spec_parse_usize(trim(a)) {
                Err(e) => Err("layer range start `"@ + a + "`: "@ + parse_error_text(e)),
                Ok(start) => match spec_parse_usize(trim(b)) {
                    Err(e) => Err("layer range end `"@ + b + "`: "@ + parse_error_text(e)),
                    Ok(end) => if start >= end {
                        Err(empty_range_message(start, end))
                    } else {
                        Ok((start, end))
                    },
                },
            }
        },
    }
}

fn find_char(s: &[char], c: char) -> (r: Option<usize>)
    ensures
        match r {
            Some(i) => {
                &&& first_index_of(s@, c) == Some(i as int)
                &&& i < s@.len()
                &&& i < s.len()
                &&& s@[i as int] == c
                &&& forall|j: int| 0 <= j < i ==> s@[j] != c
            },
            None => first_index_of(s@, c) is None,
        },
{
    let mut i: usize = 0;
    while i < s.len()
        invariant
            i <= s@.len(),
            forall|j: int| 0 <= j < i ==> s@[j] != c,
        decreases s@.len() - i,
    {
        if s[i] == c {
            proof {
                let w = choose|k: int|
                    0 <= k < s@.len() && s@[k] == c && forall|j: int| 0 <= j < k ==> s@[j] != c;
                assert(0 <= i < s@.len() && s@[i as int] == c && forall|j: int|
                    0 <= j < i ==> s@[j] != c);
                if w < i {
                } else if w > i {
                    assert(s@[i as int] != c);
                }
            }
            return Some(i);
        }
        i = i + 1;
    }
    None
}

impl LayerRange {
    pub fn new(start: usize, end: usize) -> (r: Result<Self, Error>)
        ensures
            match r {
                Ok(range) => start < end && range == (LayerRange { start, end }),
                Err(Error::InvalidArgument(m)) => start >= end && m@ == empty_range_message(
                    start,
                    end,
                ),
                Err(_) => false,
            },
    {
        if start >= end {
            let mut m: Vec<char> = Vec::new();
            push_str(&mut m, "layer range ");
            push_decimal(&mut m, start as u64);
            push_str(&mut m, ":");
            push_decimal(&mut m, end as u64);
            push_str(&mut m, " is empty");
            assert(m@ =~= empty_range_message(start, end));
            return Err(Error::InvalidArgument(string_from_chars(m.as_slice())));
        }
        Ok(LayerRange { start, end })
    }

    /// Parse the CLI form `A:B` (half-open).
    pub fn parse(s: &str) -> (r: Result<Self, Error>)
        ensures
            match r {
                Ok(range) => spec_parse_range(s@) == Ok::<(usize, usize), Seq<char>>(
                    (range.start, range.end),
                ),
                Err(Error::InvalidArgument(m)) => spec_parse_range(s@) == Err::<(usize, usize), Seq<char>>(
                    m@,
                ),
                Err(_) => false,
            },
    {
        let cs = chars_of(s);
        let colon = find_char(cs.as_slice(), ':');
        match colon {
            None => {
                let mut m: Vec<char> = Vec::new();
                push_str(&mut m, "layer range `");
                push_all(&mut m, cs.as_slice());
                push_str(&mut m, "` must be of the form A:B");
                return Err(Error::InvalidArgument(string_from_chars(m.as_slice())));
            },
            Some(k) => {
                let a = copy_range(cs.as_slice(), 0, k);
                let b = copy_range(cs.as_slice(), k + 1, cs.len());
                assert(a@ == cs@.take(k as int));
                assert(b@ == cs@.skip(k + 1));
                let (a0, a1) = trim_bounds(a.as_slice());
                let at = copy_range(a.as_slice(), a0, a1);
                let start = match parse_usize(at.as_slice()) {
                    Ok(v) => v,
                    Err(e) => {
                        let mut m: Vec<char> = Vec::new();
                        push_str(&mut m, "layer range start `");
                        push_all(&mut m, a.as_slice());
                        push_str(&mut m, "`: ");
                        let et = parse_error_message(e);
                        push_str(&mut m, et.as_str());
                        return Err(Error::InvalidArgument(string_from_chars(m.as_slice())));
                    },
                };
                let (b0, b1) = trim_bounds(b.as_slice());
                let bt = copy_range(b.as_slice(), b0, b1);
                let end = match parse_usize(bt.as_slice()) {
                    Ok(v) => v,
                    Err(e) => {
                        let mut m: Vec<char> = Vec::new();
                        push_str(&mut m, "layer range end `");
                        push_all(&mut m, b.as_slice());
                        push_str(&mut m, "`: ");
                        let et = parse_error_message(e);
                        push_str(&mut m, et.as_str());
                        return Err(Error::InvalidArgument(string_from_chars(m.as_slice())));
                    },
                };
                Self::new(start, end)
            },
        }
    }

    pub fn len(&self) -> (n: usize)
        requires
            self.start <= self.end,
        ensures
            n == self.end - self.start,
    {
        self.end - self.start
    }

    pub fn is_empty(&self) -> (b: bool)
        requires
            self.start <= self.end,
        ensures
            b == (self.start == self.end),
    {
        self.len() == 0
    }

    /// The textual form `A:B`.
    pub fn to_text(&self) -> (s: String)
        ensures
            s@ == range_text(self.start, self.end),
    {
        let mut m: Vec<char> = Vec::new();
        push_decimal(&mut m, self.start as u64);
        push_str(&mut m, ":");
        push_decimal(&mut m, self.end as u64);
        assert(m@ =~= range_text(self.start, self.end));
        string_from_chars(m.as_slice())
    }
}

/// Start of part `i` when `total` layers are split into parts of `base`
/// layers with the first `rem` parts one layer longer.
pub open spec fn part_start(base: int, rem: int, i: int) -> int {
    i * base + if i < rem { i } else { rem }
}

/// Message for a split that cannot be made.
pub open spec fn split_message(total: usize, parts: usize) -> Seq<char> {
    "cannot split "@ + decimal(total as nat) + " layers into "@ + decimal(parts as nat) + " parts"@
}

/// Split `total` layers into `parts` contiguous ranges, front-loading
/// the remainder so earlier stages get at most one extra layer.
pub fn split_layers(total: usize, parts: usize) -> (r: Result<Vec<LayerRange>, Error>)
    ensures
        match r {
            Ok(v) => {
                &&& 0 < parts <= total
                &&& v@.len() == parts
                &&& forall|i: int|
                    0 <= i < parts ==> {
                        &&& (#[trigger] v@[i]).start == part_start(
                            (total / parts) as int,
                            (total % parts) as int,
                            i,
                        )
                        &&& v@[i].end == part_start(
                            (total / parts) as int,
                            (total % parts) as int,
                            i + 1,
                        )
                    }
            },
            Err(Error::InvalidArgument(m)) => (parts == 0 || parts > total) && m@ == split_message(
                total,
                parts,
            ),
            Err(_) => false,
        },
{
    if parts == 0 || parts > total {
        let mut m: Vec<char> = Vec::new();
        push_str(&mut m, "cannot split ");
        push_decimal(&mut m, total as u64);
        push_str(&mut m, " layers into ");
        push_decimal(&mut m, parts as u64);
        push_str(&mut m, " parts");
        assert(m@ =~= split_message(total, parts));
        return Err(Error::InvalidArgument(string_from_chars(m.as_slice())));
    }
    let base = total / parts;
    let rem = total % parts;
    let mut out: Vec<LayerRange> = Vec::new();
    let mut start: usize = 0;
    let mut i: usize = 0;
    proof {
        lemma_part_start_bound(base as int, rem as int, parts as int, total as int);
    }
    while i < parts
        invariant
            0 < parts <= total,
            base == total / parts,
            rem == total % parts,
            i <= parts,
            out@.len() == i,
            start == part_start(base as int, rem as int, i as int),
            forall|k: int| 0 <= k <= parts ==> part_start(base as int, rem as int, k) <= total,
            forall|k: int|
                0 <= k < i ==> {
                    &&& (#[trigger] out@[k]).start == part_start(base as int, rem as int, k)
                    &&& out@[k].end == part_start(base as int, rem as int, k + 1)
                },
        decreases parts - i,
    {
        proof {
            let step: int = base + if i < rem { 1int } else { 0int };
            assert(part_start(base as int, rem as int, i + 1) == start + step) by (nonlinear_arith)
                requires
                    start == part_start(base as int, rem as int, i as int),
                    step == base + if i < rem { 1int } else { 0int },
            ;
            assert(part_start(base as int, rem as int, i + 1) <= total);
        }
        let len = base + if i < rem { 1 } else { 0 };
        out.push(LayerRange { start, end: start + len });
        start = start + len;
        i = i + 1;
    }
    Ok(out)
}

proof fn lemma_part_start_bound(base: int, rem: int, parts: int, total: int)
    requires
        0 < parts <= total,
        base == total / parts,
        rem == total % parts,
    ensures
        part_start(base, rem, parts) == total,
        forall|k: int| 0 <= k <= parts ==> part_start(base, rem, k) <= total,
{
    assert(0 <= rem < parts) by (nonlinear_arith)
        requires
            0 < parts,
            rem == total % parts,
            0 <= total,
    ;
    assert(parts * base + rem == total) by (nonlinear_arith)
        requires
            0 < parts,
            base == total / parts,
            rem == total % parts,
    ;
    assert(base >= 0) by (nonlinear_arith)
        requires
            0 < parts,
            base == total / parts,
            0 <= total,
    ;
    assert forall|k: int| 0 <= k <= parts implies part_start(base, rem, k) <= total by {
        assert(k * base <= parts * base) by (nonlinear_arith)
            requires
                0 <= k <= parts,
                base >= 0,
        ;
    }
}

/// End of the layers covered by the first `n` ranges (0 for none).
pub open spec fn covered_end(ranges: Seq<LayerRange>, n: int) -> int {
    if n == 0 {
        0
    } else {
        ranges[n - 1].end as int
    }
}

/// Do `ranges`, in order, start at 0 and follow one another with no gap
/// or overlap for their first `n` entries?
pub open spec fn contiguous(ranges: Seq<LayerRange>, n: int) -> bool {
    forall|i: int|
        0 <= i < n ==> (#[trigger] ranges[i]).start == covered_end(ranges, i) && ranges[i].start
            <= ranges[i].end
}

/// Do `ranges`, in order, exactly tile `[0, total)`?
pub open spec fn tiles(ranges: Seq<LayerRange>, total: usize) -> bool {
    contiguous(ranges, ranges.len() as int) && covered_end(ranges, ranges.len() as int) == total
}

/// Message for a range that does not start where the previous one ended.
pub open spec fn gap_text(next: int, r: LayerRange) -> Seq<char> {
    "pipeline layer ranges must be contiguous: expected a range starting at "@ + decimal(
        next as nat,
    ) + ", got "@ + range_text(r.start, r.end)
}

/// Message for ranges that end short of (or past) the model's layers.
pub open spec fn short_text(next: int, total: usize) -> Seq<char> {
    "pipeline layer ranges cover [0, "@ + decimal(next as nat) + ") but the model has "@ + decimal(
        total as nat,
    ) + " layers"@
}

/// Message for a range whose end comes before its start.
pub open spec fn backward_text(r: LayerRange) -> Seq<char> {
    "pipeline layer range "@ + range_text(r.start, r.end) + " runs backwards"@
}

/// The first position at or after `i` whose range does not start where
/// the previous one ended, or runs backwards.
pub open spec fn first_gap(ranges: Seq<LayerRange>, i: int) -> Option<int>
    decreases ranges.len() - i,
{
    if i < 0 || i >= ranges.len() {
        None
    } else if ranges[i].start != covered_end(ranges, i) || ranges[i].end < ranges[i].start {
        Some(i)
    } else {
        first_gap(ranges, i + 1)
    }
}

/// Why `ranges` do not tile `[0, total)`: the first gap, else the end.
pub open spec fn coverage_message(ranges: Seq<LayerRange>, total: usize) -> Seq<char> {
    match first_gap(ranges, 0) {
        Some(i) => if ranges[i].start != covered_end(ranges, i) {
            gap_text(covered_end(ranges, i), ranges[i])
        } else {
            backward_text(ranges[i])
        },
        None => short_text(covered_end(ranges, ranges.len() as int), total),
    }
}

/// Check that `ranges`, in order, exactly tile `[0, total)`.
pub fn validate_coverage(total: usize, ranges: &[LayerRange]) -> (r: Result<(), Error>)
    ensures
        r is Ok <==> tiles(ranges@, total),
        r matches Err(e) ==> e matches Error::InvalidArgument(m) && m@ == coverage_message(
            ranges@,
            total,
        ),
{
    let mut next: usize = 0;
    let mut i: usize = 0;
    while i < ranges.len()
        invariant
            i <= ranges@.len(),
            contiguous(ranges@, i as int),
            next == covered_end(ranges@, i as int),
            first_gap(ranges@, 0) == first_gap(ranges@, i as int),
        decreases ranges@.len() - i,
    {
        let r = ranges[i];
        if r.start != next {
            assert(ranges@[i as int].start != covered_end(ranges@, i as int));
            return Err(Error::InvalidArgument(gap_message(next, &r)));
        }
        if r.end < r.start {
            return Err(Error::InvalidArgument(backward_message(&r)));
        }
        next = r.end;
        i = i + 1;
    }
    if next != total {
        return Err(Error::InvalidArgument(short_message(next, total)));
    }
    Ok(())
}

fn gap_message(next: usize, r: &LayerRange) -> (m: String)
    ensures
        m@ == gap_text(next as int, *r),
{
    let mut m: Vec<char> = Vec::new();
    push_str(&mut m, "pipeline layer ranges must be contiguous: expected a range starting at ");
    push_decimal(&mut m, next as u64);
    push_str(&mut m, ", got ");
    let t = r.to_text();
    push_str(&mut m, t.as_str());
    string_from_chars(m.as_slice())
}

fn backward_message(r: &LayerRange) -> (m: String)
    ensures
        m@ == backward_text(*r),
{
    let mut m: Vec<char> = Vec::new();
    push_str(&mut m, "pipeline layer range ");
    let t = r.to_text();
    push_str(&mut m, t.as_str());
    push_str(&mut m, " runs backwards");
    string_from_chars(m.as_slice())
}

fn short_message(next: usize, total: usize) -> (m: String)
    ensures
        m@ == short_text(next as int, total),
{
    let mut m: Vec<char> = Vec::new();
    push_str(&mut m, "pipeline layer ranges cover [0, ");
    push_decimal(&mut m, next as u64);
    push_str(&mut m, ") but the model has ");
    push_decimal(&mut m, total as u64);
    push_str(&mut m, " layers");
    string_from_chars(m.as_slice())
}

/// Which non-layer parts of the model to bind.
#[derive(Debug, Clone, Copy, PartialEq, Eq, Structural)]
pub struct ModelParts {
    /// Token embedding table (needed by the stage that sees token ids).
    pub embedding: bool,
    /// Final norm + LM head (needed by the stage that emits logits).
    pub output: bool,
}

impl ModelParts {
    /// Single-node: everything.
    pub fn full() -> (p: Self)
        ensures
            p.embedding && p.output,
    {
        ModelParts { embedding: true, output: true }
    }

    /// Pipeline worker: hidden states in, hidden states out.
    pub fn middle() -> (p: Self)
        ensures
            !p.embedding && !p.output,
    {
        ModelParts { embedding: false, output: false }
    }
}

/// The ranges `split_layers` produces, as a sequence.
pub open spec fn spec_split(total: usize, parts: usize) -> Seq<LayerRange> {
    Seq::new(
        parts as nat,
        |i: int|
            LayerRange {
                start: part_start((total / parts) as int, (total % parts) as int, i) as usize,
                end: part_start((total / parts) as int, (total % parts) as int, i + 1) as usize,
            },
    )
}

/// Every split that `split_layers` accepts tiles the model exactly, so
/// it passes `validate_coverage`.
pub proof fn law_split_tiles_the_model(total: usize, parts: usize)
    requires
        0 < parts <= total,
    ensures
        tiles(spec_split(total, parts), total),
{
    let base = (total / parts) as int;
    let rem = (total % parts) as int;
    lemma_part_start_bound(base, rem, parts as int, total as int);
    assert forall|k: int| 0 <= k <= parts implies part_start(base, rem, k) >= 0 by {
        assert(k * base >= 0) by (nonlinear_arith)
            requires
                0 <= k,
                base >= 0,
        ;
    }
    let sp = spec_split(total, parts);
    assert forall|i: int| 0 <= i < sp.len() implies (#[trigger] sp[i]).start == covered_end(sp, i)
        && sp[i].start <= sp[i].end by {
        if i > 0 {
            assert(sp[i - 1].end == part_start(base, rem, i) as usize);
        }
        assert((i + 1) * base == i * base + base) by (nonlinear_arith);
        assert(part_start(base, rem, i) <= part_start(base, rem, i + 1));
    }
    assert(sp[parts - 1].end == part_start(base, rem, parts as int) as usize);
}

/// The parts of a split differ in length by at most one, longer parts first.
pub proof fn law_split_is_balanced(total: usize, parts: usize, i: int, j: int)
    requires
        0 < parts <= total,
        0 <= i < j < parts,
    ensures
        spec_split(total, parts)[j].end - spec_split(total, parts)[j].start
            <= spec_split(total, parts)[i].end - spec_split(total, parts)[i].start
            <= spec_split(total, parts)[j].end - spec_split(total, parts)[j].start + 1,
{
    let base = (total / parts) as int;
    let rem = (total % parts) as int;
    lemma_part_start_bound(base, rem, parts as int, total as int);
    assert forall|k: int| 0 <= k <= parts implies part_start(base, rem, k) >= 0 by {
        assert(k * base >= 0) by (nonlinear_arith)
            requires
                0 <= k,
                base >= 0,
        ;
    }
    assert(part_start(base, rem, i + 1) - part_start(base, rem, i) == base + if i < rem { 1int } else { 0int }) by (nonlinear_arith);
    assert(part_start(base, rem, j + 1) - part_start(base, rem, j) == base + if j < rem { 1int } else { 0int }) by (nonlinear_arith);
}

/// Message for a range that reaches past the model's last layer.
pub open spec fn exceeds_message(start: usize, end: usize, n_layers: usize) -> Seq<char> {
    "layer range "@ + range_text(start, end) + " exceeds model layer count "@ + decimal(n_layers as nat)
}

/// A model of `n_layers` layers can bind `range` only when the range ends
/// within it.
pub fn check_range_fits(range: &LayerRange, n_layers: usize) -> (r: Result<(), Error>)
    ensures
        match r {
            Ok(()) => range.end <= n_layers,
            Err(Error::InvalidArgument(m)) => range.end > n_layers && m@ == exceeds_message(
                range.start,
                range.end,
                n_layers,
            ),
            Err(_) => false,
        },
{
    if range.end > n_layers {
        let mut m: Vec<char> = Vec::new();
        push_str(&mut m, "layer range ");
        push_decimal(&mut m, range.start as u64);
        push_str(&mut m, ":");
        push_decimal(&mut m, range.end as u64);
        push_str(&mut m, " exceeds model layer count ");
        push_decimal(&mut m, n_layers as u64);
        assert(m@ =~= exceeds_message(range.start, range.end, n_layers));
        return Err(Error::InvalidArgument(string_from_chars(m.as_slice())));
    }
    Ok(())
}

} // verus!
