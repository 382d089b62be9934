//! Sequence bookkeeping of pipeline-parallel serving.
//!
//! The coordinator runs the first layer slice and streams hidden states
//! through remote workers, one step at a time. Every stage keeps a KV
//! cache per sequence; [`PositionLedger`] tracks how many positions each
//! of them holds, which decides whether a step may run: a worker step at
//! position 0 restarts its sequence, and any other step must continue
//! exactly where the sequence stands.
use vstd::prelude::*;

use crate::error::Error;
use crate::layers::{coverage_message, range_text, tiles, validate_coverage, LayerRange};
use crate::text::{decimal, push_decimal, push_str, string_from_chars};

verus! {

broadcast use vstd::std_specs::hash::group_hash_axioms;

/// Message for a coordinator slice that does not start at layer 0.
pub open spec fn coordinator_start_message(local: LayerRange) -> Seq<char> {
    "coordinator layer range must start at 0, got "@ + range_text(local.start, local.end)
}

/// The coordinator's slice followed by the workers' slices, in pipeline order.
pub open spec fn stage_ranges(local: LayerRange, workers: Seq<LayerRange>) -> Seq<LayerRange> {
    seq![local] + workers
}

/// Check that the coordinator's local slice starts at layer 0 and that it
/// and the worker slices, in order, tile the model's `total` layers.
pub fn check_pipeline_layers(local: LayerRange, workers: &[LayerRange], total: usize) -> (r: Result<
    (),
    Error,
>)
    ensures
        r is Ok <==> local.start == 0 && tiles(stage_ranges(local, workers@), total),
        local.start != 0 ==> (r matches Err(Error::Config(m)) && m@ == coordinator_start_message(
            local,
        )),
        local.start == 0 && !tiles(stage_ranges(local, workers@), total) ==> (r matches Err(
            Error::InvalidArgument(m),
        ) && m@ == coverage_message(stage_ranges(local, workers@), total)),
{
    if local.start != 0 {
        let mut m: Vec<char> = Vec::new();
        push_str(&mut m, "coordinator layer range must start at 0, got ");
        let t = local.to_text();
        push_str(&mut m, t.as_str());
        assert(m@ =~= coordinator_start_message(local));
        return Err(Error::Config(string_from_chars(m.as_slice())));
    }
    let mut ranges: Vec<LayerRange> = Vec::new();
    ranges.push(local);
    let mut i: usize = 0;
    while i < workers.len()
        invariant
            i <= workers@.len(),
            ranges@ == seq![local] + workers@.take(i as int),
        decreases workers@.len() - i,
    {
        ranges.push(workers[i]);
        i = i + 1;
        assert(ranges@ =~= seq![local] + workers@.take(i as int));
    }
    assert(ranges@ =~= stage_ranges(local, workers@));
    validate_coverage(total, ranges.as_slice())
}

/// Longest sequence the pipeline serves: the configured context, capped
/// by the model's trained context, and at least one position.
pub fn pipeline_max_seq_len(ctx: usize, model_context: usize) -> (n: usize)
    ensures
        n == if ctx < model_context {
            if ctx < 1 { 1 } else { ctx }
        } else {
            if model_context < 1 { 1 } else { model_context }
        },
{
    let m = if ctx < model_context { ctx } else { model_context };
    if m < 1 { 1 } else { m }
}

/// Message for a decode batch the pipeline cannot run.
pub open spec fn batch_too_large_message() -> Seq<char> {
    "pipeline runtime cannot decode a batch larger than 1"@
}

/// The pipeline decodes at most one sequence per step.
pub fn check_decode_batch(len: usize) -> (r: Result<(), Error>)
    ensures
        r is Ok <==> len <= 1,
        r matches Err(e) ==> e matches Error::Internal(m) && m@ == batch_too_large_message(),
{
    if len > 1 {
        return Err(Error::Internal(String::from_str("pipeline runtime cannot decode a batch larger than 1")));
    }
    Ok(())
}

/// Positions held by `seq` in `m`, absent sequences holding none.
pub open spec fn held(m: Map<u64, usize>, seq: u64) -> nat {
    if m.contains_key(seq) {
        m[seq] as nat
    } else {
        0
    }
}

/// Message for a worker step that does not continue its sequence.
pub open spec fn worker_mismatch_message(seq: u64, held: nat, index_pos: u32) -> Seq<char> {
    "seq "@ + decimal(seq as nat) + ": worker KV holds "@ + decimal(held) + " positions but coordinator sent index_pos "@
        + decimal(index_pos as nat)
}

/// A worker step on `seq` at `index_pos`: the sequence is created if
/// unknown and restarted at position 0; the step may run iff the
/// sequence then holds exactly `index_pos` positions.
pub open spec fn worker_begin_model(m: Map<u64, usize>, seq: u64, index_pos: u32) -> (Map<u64, usize>, bool) {
    let m2 = if index_pos == 0 || !m.contains_key(seq) {
        m.insert(seq, 0)
    } else {
        m
    };
    (m2, m2[seq] == index_pos)
}

/// Message for a coordinator step on a sequence it does not know.
pub open spec fn unknown_seq_message(what: Seq<char>, seq: u64) -> Seq<char> {
    what + " of unknown seq "@ + decimal(seq as nat)
}

/// Message for a prefill chunk that does not continue its sequence.
pub open spec fn prefill_mismatch_message(seq: u64, held: nat, start_pos: usize) -> Seq<char> {
    "prefill position mismatch for seq "@ + decimal(seq as nat) + ": kv "@ + decimal(held) + " vs start_pos "@
        + decimal(start_pos as nat)
}

/// Per-sequence KV positions held by one pipeline stage.
pub struct PositionLedger {
    positions: std::collections::HashMap<u64, usize>,
}

impl View for PositionLedger {
    type V = Map<u64, usize>;

    closed spec fn view(&self) -> Map<u64, usize> {
        self.positions@
    }
}

impl PositionLedger {
    pub fn new() -> (l: Self)
        ensures
            l@ == Map::<u64, usize>::empty(),
    {
        PositionLedger { positions: std::collections::HashMap::new() }
    }

    /// Positions `seq` holds, if the stage knows it.
    pub fn position(&self, seq: u64) -> (r: Option<usize>)
        ensures
            r == if self@.contains_key(seq) {
                Some(self@[seq])
            } else {
                None
            },
    {
        match self.positions.get(&seq) {
            Some(p) => Some(*p),
            None => None,
        }
    }

    /// Worker side of a step: create or restart the sequence as needed and
    /// check that the step continues it.
    pub fn worker_begin(&mut self, seq: u64, index_pos: u32) -> (r: Result<(), Error>)
        ensures
            (final(self)@, r is Ok) == worker_begin_model(old(self)@, seq, index_pos),
            r matches Err(e) ==> e matches Error::InvalidArgument(m) && m@ == worker_mismatch_message(
                seq,
                held(old(self)@, seq),
                index_pos,
            ),
    {
        let known = self.positions.get(&seq);
        let held_now: usize = match known {
            Some(p) => *p,
            None => 0,
        };
        if index_pos == 0 || known.is_none() {
            self.positions.insert(seq, 0);
        }
        let now: usize = if index_pos == 0 { 0 } else { held_now };
        assert(self@[seq] == now);
        if now as u64 != index_pos as u64 {
            let mut m: Vec<char> = Vec::new();
            push_str(&mut m, "seq ");
            push_decimal(&mut m, seq);
            push_str(&mut m, ": worker KV holds ");
            push_decimal(&mut m, now as u64);
            push_str(&mut m, " positions but coordinator sent index_pos ");
            push_decimal(&mut m, index_pos as u64);
            proof {
                if index_pos != 0 {
                    assert(now == held(old(self)@, seq));
                }
            }
            assert(m@ =~= worker_mismatch_message(seq, held(old(self)@, seq), index_pos));
            return Err(Error::InvalidArgument(string_from_chars(m.as_slice())));
        }
        Ok(())
    }

    /// Coordinator side of a prefill chunk at `start_pos`: a chunk at 0
    /// starts the sequence afresh; any other chunk needs the sequence
    /// to hold exactly `start_pos` positions.
    pub fn prefill_begin(&mut self, seq: u64, start_pos: usize) -> (r: Result<(), Error>)
        ensures
            final(self)@ == if start_pos == 0 {
                old(self)@.insert(seq, 0)
            } else {
                old(self)@
            },
            r is Ok <==> final(self)@.contains_key(seq) && final(self)@[seq] == start_pos,
            r matches Err(e) ==> e matches Error::Internal(m) && m@ == if !final(self)@.contains_key(
                seq,
            ) {
                unknown_seq_message("prefill"@, seq)
            } else {
                prefill_mismatch_message(seq, final(self)@[seq] as nat, start_pos)
            },
    {
        if start_pos == 0 {
            self.positions.insert(seq, 0);
        }
        match self.positions.get(&seq) {
            None => Err(Error::Internal(unknown_seq(seq, "prefill"))),
            Some(p) => {
                let held_now = *p;
                if held_now != start_pos {
                    let mut m: Vec<char> = Vec::new();
                    push_str(&mut m, "prefill position mismatch for seq ");
                    push_decimal(&mut m, seq);
                    push_str(&mut m, ": kv ");
                    push_decimal(&mut m, held_now as u64);
                    push_str(&mut m, " vs start_pos ");
                    push_decimal(&mut m, start_pos as u64);
                    assert(m@ =~= prefill_mismatch_message(seq, held_now as nat, start_pos));
                    return Err(Error::Internal(string_from_chars(m.as_slice())));
                }
                Ok(())
            },
        }
    }

    /// Coordinator side of a decode step: the position the new token
    /// takes, which is how many positions the sequence holds.
    pub fn decode_position(&self, seq: u64) -> (r: Result<usize, Error>)
        ensures
            self@.contains_key(seq) ==> r == Ok::<usize, Error>(self@[seq]),
            !self@.contains_key(seq) ==> (r matches Err(Error::Internal(m)) && m@ == unknown_seq_message(
                "decode"@,
                seq,
            )),
    {
        match self.positions.get(&seq) {
            Some(p) => Ok(*p),
            None => Err(Error::Internal(unknown_seq(seq, "decode"))),
        }
    }

    /// Record that a step appended `n` positions to `seq`.
    pub fn advance(&mut self, seq: u64, n: usize)
        requires
            old(self)@.contains_key(seq),
            old(self)@[seq] + n <= usize::MAX,
        ensures
            final(self)@ == old(self)@.insert(seq, (old(self)@[seq] + n) as usize),
    {
        let p = match self.positions.get(&seq) {
            Some(p) => *p,
            None => 0,
        };
        self.positions.insert(seq, p + n);
    }

    /// Forget `seq`; returns whether the stage knew it (and so whether
    /// the remote stages must be told to drop it too).
    pub fn forget(&mut self, seq: u64) -> (known: bool)
        ensures
            known == old(self)@.contains_key(seq),
            final(self)@ == old(self)@.remove(seq),
    {
        self.positions.remove(&seq).is_some()
    }
}

fn unknown_seq(seq: u64, what: &str) -> (m: String)
    ensures
        m@ == unknown_seq_message(what@, seq),
{
    let mut m: Vec<char> = Vec::new();
    push_str(&mut m, what);
    push_str(&mut m, " of unknown seq ");
    push_decimal(&mut m, seq);
    assert(m@ =~= unknown_seq_message(what@, seq));
    string_from_chars(m.as_slice())
}

/// A step at position 0 always runs on a worker: it restarts the sequence.
pub proof fn law_worker_restart_always_runs(m: Map<u64, usize>, seq: u64)
    ensures
        worker_begin_model(m, seq, 0).1,
        worker_begin_model(m, seq, 0).0 == m.insert(seq, 0),
{
}

/// After a step at `p` that appended `n` positions, a worker accepts the
/// next step exactly at `p + n` (or a restart at 0).
pub proof fn law_worker_steps_continue(m: Map<u64, usize>, seq: u64, p: u32, n: usize, q: u32)
    requires
        worker_begin_model(m, seq, p).1,
        p + n <= usize::MAX,
    ensures
        ({
            let m1 = worker_begin_model(m, seq, p).0;
            let m2 = m1.insert(seq, (m1[seq] + n) as usize);
            worker_begin_model(m2, seq, q).1 <==> (q == 0 || q == p + n)
        }),
{
}

} // verus!
