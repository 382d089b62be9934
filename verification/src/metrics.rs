//! Engine telemetry: which engines expose Prometheus metrics, which
//! series carry queue depth and KV-cache occupancy, and which sample
//! values of a series a scraped exposition body holds.
//!
//! | engine  | queue depth                                  | KV occupancy                 |
//! |---------|----------------------------------------------|------------------------------|
//! | vllm    | `vllm:num_requests_waiting` + `…_running`    | `vllm:gpu_cache_usage_perc`  |
//! | sglang  | `sglang:num_queue_reqs` + `…num_running_reqs`| `sglang:token_usage`         |
//! | others  | not exposed                                  | —                            |
use vstd::prelude::*;

use crate::federation::{find_first, lines_of};
use crate::text::{chars_of, copy_range, same_chars, str_eq, string_from_chars, trim, trim_bounds};

verus! {

/// Synthetic denominator for engines that report cache occupancy as a
/// fraction; the router only consumes the ratio `free / total`.
pub const SYNTHETIC_TOTAL_BLOCKS: u32 = 10_000;

/// Engines whose bundled server exposes a Prometheus `/metrics` route.
pub open spec fn spec_has_prometheus_metrics(kind: Seq<char>) -> bool {
    kind == "vllm"@ || kind == "sglang"@
}

/// Engines whose bundled server exposes a Prometheus `/metrics` route.
pub fn has_prometheus_metrics(engine_kind: &str) -> (b: bool)
    ensures
        b == spec_has_prometheus_metrics(engine_kind@),
{
    str_eq(engine_kind, "vllm") || str_eq(engine_kind, "sglang")
}

/// The series an engine reports: waiting requests, running requests,
/// and KV-cache usage as a fraction.
pub struct MetricNames {
    pub waiting: &'static str,
    pub running: &'static str,
    pub usage: &'static str,
}

/// Series names per engine kind (`None` for engines without metrics).
pub open spec fn spec_metric_names(kind: Seq<char>) -> Option<(Seq<char>, Seq<char>, Seq<char>)> {
    if kind == "vllm"@ {
        Some(("vllm:num_requests_waiting"@, "vllm:num_requests_running"@, "vllm:gpu_cache_usage_perc"@))
    } else if kind == "sglang"@ {
        Some(("sglang:num_queue_reqs"@, "sglang:num_running_reqs"@, "sglang:token_usage"@))
    } else {
        None
    }
}

/// Series names per engine kind.
pub fn metric_names(engine_kind: &str) -> (r: Option<MetricNames>)
    ensures
        match r {
            Some(n) => spec_metric_names(engine_kind@) == Some((n.waiting@, n.running@, n.usage@)),
            None => spec_metric_names(engine_kind@) is None,
        },
{
    if str_eq(engine_kind, "vllm") {
        Some(
            MetricNames {
                waiting: "vllm:num_requests_waiting",
                running: "vllm:num_requests_running",
                usage: "vllm:gpu_cache_usage_perc",
            },
        )
    } else if str_eq(engine_kind, "sglang") {
        Some(
            MetricNames {
                waiting: "sglang:num_queue_reqs",
                running: "sglang:num_running_reqs",
                usage: "sglang:token_usage",
            },
        )
    } else {
        None
    }
}

/// Index of the last space of `s` before position `n` (or -1).
pub open spec fn last_space(s: Seq<char>, n: int) -> int
    decreases n,
{
    if n <= 0 {
        -1
    } else if s[n - 1] == ' ' {
        n - 1
    } else {
        last_space(s, n - 1)
    }
}

/// Is `line` (already trimmed) a sample of series `name`: it starts with
/// the name, directly followed by a space or a label set?
pub open spec fn is_sample_of(line: Seq<char>, name: Seq<char>) -> bool {
    &&& name.len() < line.len()
    &&& line.take(name.len() as int) == name
    &&& (line[name.len() as int] == ' ' || line[name.len() as int] == '{')
}

/// The value text of a sample line: what follows its last space.
pub open spec fn sample_value(line: Seq<char>) -> Seq<char> {
    line.skip(last_space(line, line.len() as int) + 1)
}

/// Sample values of series `name` among `lines`, in order; blank and
/// comment lines are skipped.
pub open spec fn sample_values(lines: Seq<Seq<char>>, name: Seq<char>) -> Seq<Seq<char>>
    decreases lines.len(),
{
    if lines.len() == 0 {
        Seq::empty()
    } else {
        let rest = sample_values(lines.drop_last(), name);
        let line = trim(lines.last());
        if line.len() > 0 && line[0] != '#' && is_sample_of(line, name) {
            rest.push(sample_value(line))
        } else {
            rest
        }
    }
}

/// Views of a list of strings.
pub open spec fn views(v: Seq<String>) -> Seq<Seq<char>> {
    v.map_values(|s: String| s@)
}

proof fn lemma_last_space_range(s: Seq<char>, n: int)
    requires
        0 <= n <= s.len(),
    ensures
        -1 <= last_space(s, n) < n,
    decreases n,
{
    if n > 0 && s[n - 1] != ' ' {
        lemma_last_space_range(s, n - 1);
    }
}

fn value_of(line: &[char]) -> (v: Vec<char>)
    ensures
        v@ == sample_value(line@),
{
    let mut n = line.len();
    while n > 0 && line[n - 1] != ' '
        invariant
            n <= line@.len(),
            last_space(line@, line@.len() as int) == last_space(line@, n as int),
        decreases n,
    {
        n = n - 1;
    }
    proof {
        lemma_last_space_range(line@, n as int);
    }
    let v = copy_range(line, n, line.len());
    assert(v@ =~= sample_value(line@));
    v
}

fn is_sample(line: &[char], name: &[char]) -> (b: bool)
    ensures
        b == is_sample_of(line@, name@),
{
    if name.len() >= line.len() {
        return false;
    }
    let mut i: usize = 0;
    while i < name.len()
        invariant
            name@.len() < line@.len(),
            i <= name@.len(),
            forall|k: int| 0 <= k < i ==> line@[k] == name@[k],
        decreases name@.len() - i,
    {
        if line[i] != name[i] {
            assert(line@.take(name@.len() as int)[i as int] != name@[i as int]);
            return false;
        }
        i = i + 1;
    }
    assert(line@.take(name@.len() as int) =~= name@);
    let c = line[name.len()];
    c == ' ' || c == '{'
}

/// The sample value texts of series `name` in a Prometheus exposition
/// body: for each non-comment line that is a sample of `name`, the text
/// after its last space. The caller parses and sums them.
pub fn metric_values(text: &str, name: &str) -> (out: Vec<String>)
    ensures
        views(out@) == sample_values(lines_of(text@), name@),
{
    let b = chars_of(text);
    let nm = chars_of(name);
    let mut out: Vec<String> = Vec::new();
    let mut from: usize = 0;
    let ghost mut done: Seq<Seq<char>> = Seq::empty();
    assert(b@.skip(0) =~= b@);
    assert(Seq::<Seq<char>>::empty() + lines_of(b@) =~= lines_of(b@));
    assert(views(out@) =~= sample_values(done, name@));
    while from < b.len()
        invariant
            from <= b@.len(),
            b@ == text@,
            nm@ == name@,
            lines_of(b@) == done + lines_of(b@.skip(from as int)),
            views(out@) == sample_values(done, name@),
        decreases b@.len() - from,
    {
        let rest = copy_range(b.as_slice(), from, b.len());
        assert(rest@ == b@.skip(from as int));
        let mut k: usize = 0;
        while k < rest.len() && rest[k] != '\n'
            invariant
                k <= rest@.len(),
                find_first(rest@, '\n', 0) == find_first(rest@, '\n', k as int),
            decreases rest@.len() - k,
        {
            k = k + 1;
        }
        let (line, next) = if k < rest.len() {
            let raw = copy_range(rest.as_slice(), 0, k);
            let line = if raw.len() > 0 && raw[raw.len() - 1] == '\r' {
                copy_range(raw.as_slice(), 0, raw.len() - 1)
            } else {
                raw
            };
            proof {
                assert(rest@.skip(k + 1) =~= b@.skip(from + k + 1));
                if raw@.len() > 0 && raw@.last() == '\r' {
                    assert(line@ =~= raw@.drop_last());
                }
            }
            (line, from + k + 1)
        } else {
            assert(b@.skip(b@.len() as int) =~= Seq::<char>::empty());
            (rest, b.len())
        };
        proof {
            assert(lines_of(b@.skip(from as int)) == seq![line@] + lines_of(b@.skip(next as int)));
            assert(done + lines_of(b@.skip(from as int)) =~= done.push(line@) + lines_of(
                b@.skip(next as int),
            ));
            assert(done.push(line@).drop_last() =~= done);
        }
        let (s, e) = trim_bounds(line.as_slice());
        let t = copy_range(line.as_slice(), s, e);
        let ghost before = views(out@);
        if t.len() > 0 && t[0] != '#' && is_sample(t.as_slice(), nm.as_slice()) {
            let v = value_of(t.as_slice());
            out.push(string_from_chars(v.as_slice()));
            assert(views(out@) =~= before.push(sample_value(t@)));
        }
        proof {
            done = done.push(line@);
        }
        from = next;
    }
    assert(b@.skip(b@.len() as int) =~= Seq::<char>::empty());
    assert(done + Seq::<Seq<char>>::empty() =~= done);
    out
}

} // verus!
