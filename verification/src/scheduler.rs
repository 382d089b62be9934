//! Continuous-batching scheduler.
//!
//! Many sequences share one [`BatchModel`]:
//!
//! * **Admission**: waiting requests join the running set, oldest first,
//!   while there is batch room and KV-pool space for the whole prompt
//!   plus one decode position, so admission implies the prefill can
//!   complete.
//! * **Chunked prefill**: a prompt is processed `prefill_chunk` tokens
//!   per step, one chunk per step, so a long prompt cannot starve the
//!   decoding sequences.
//! * **Batched decode**: every decode-phase sequence advances one token
//!   per step through a single `BatchModel::decode` call.
//! * **Preemption**: when a growing sequence cannot get a block, the most
//!   recently admitted other sequence gives its KV back and returns to
//!   the front of the queue, keeping the tokens it generated.
//! * **Emission**: decoded text is streamed incrementally, holding back
//!   incomplete characters and any tail that could still become a stop
//!   string.
use std::collections::VecDeque;
use vstd::prelude::*;
use vstd::string::StringSliceAdditionalSpecFns;
use vstd::utf8::{decode_utf8, encode_utf8, is_char_boundary, valid_utf8};

use crate::error::Error;
use crate::kv::{spec_blocks_for, KvPool, PoolModel};
use crate::stop::{occurs_at, spec_text_step, text_step, views, TextStep};
use crate::wire::StreamEvent;

verus! {

/// Scheduler tuning knobs.
#[derive(Debug, Clone)]
pub struct SchedulerConfig {
    /// Max sequences decoding concurrently (clamped to the runtime's
    /// `max_batch`).
    pub max_batch: usize,
    /// Prefill chunk size in tokens.
    pub prefill_chunk: usize,
    /// Total KV pool size in tokens (converted to blocks).
    pub kv_pool_tokens: usize,
}

impl Default for SchedulerConfig {
    fn default() -> (c: Self)
        ensures
            c.max_batch == 8,
            c.prefill_chunk == 512,
            c.kv_pool_tokens == 64 * 1024,
    {
        SchedulerConfig { max_batch: 8, prefill_chunk: 512, kv_pool_tokens: 64 * 1024 }
    }
}

/// A loaded model that serves several sequences, each identified by a
/// scheduler-assigned id; the runtime owns all KV state.
///
/// * `prefill(seq, tokens, start_pos, want_logits)` processes `tokens`
///   for `seq`, whose KV already covers exactly `start_pos` positions
///   (`start_pos == 0` starts or restarts the sequence), and returns the
///   last position's logits when `want_logits` is set.
/// * `decode(batch)` appends one token per listed sequence and returns
///   logits in the same order.
/// * `drop_seq` releases all state of a sequence; unknown ids are a
///   no-op.
///
/// The scheduler assumes nothing of what these return, except that a
/// runtime serves batches of at least one sequence. The runtime's
/// longest sequence, its largest batch and its count of drops served
/// (with the last one dropped) are the specification functions its
/// contracts speak of.
pub trait BatchModel {
    /// What a forward pass yields for one sequence's last position.
    type Logits;

    /// Largest decode batch this runtime supports (1 = sequential);
    /// implementations promise at least one.
    fn max_batch(&self) -> (n: usize)
        ensures
            n >= 1,
            n == self.spec_max_batch(),
    ;

    /// The largest decode batch, a property of the runtime.
    spec fn spec_max_batch(&self) -> usize;

    /// The longest sequence (prompt plus generated tokens) the runtime
    /// holds; a property of the runtime's configuration.
    spec fn spec_max_seq_len(&self) -> usize;

    fn max_seq_len(&self) -> (n: usize)
        ensures
            n == self.spec_max_seq_len(),
    ;

    fn prefill(&mut self, seq: u64, tokens: &[u32], start_pos: usize, want_logits: bool) -> (r: Result<
        Option<Self::Logits>,
        Error,
    >)
        ensures
            final(self).spec_max_seq_len() == old(self).spec_max_seq_len(),
            final(self).spec_drops() == old(self).spec_drops(),
            final(self).spec_last_dropped() == old(self).spec_last_dropped(),
    ;

    fn decode(&mut self, batch: &[(u64, u32)]) -> (r: Result<Vec<Self::Logits>, Error>)
        ensures
            r matches Ok(v) ==> v@.len() == batch@.len(),
            final(self).spec_max_seq_len() == old(self).spec_max_seq_len(),
            final(self).spec_drops() == old(self).spec_drops(),
            final(self).spec_last_dropped() == old(self).spec_last_dropped(),
    ;

    fn drop_seq(&mut self, seq: u64)
        ensures
            final(self).spec_max_seq_len() == old(self).spec_max_seq_len(),
            old(self).spec_drops() < u64::MAX ==> final(self).spec_drops() == old(self).spec_drops() + 1,
            final(self).spec_last_dropped() == seq,
    ;

    /// How many `drop_seq` calls the runtime has served.
    spec fn spec_drops(&self) -> u64;

    /// The sequence the latest `drop_seq` call named.
    spec fn spec_last_dropped(&self) -> u64;
}

/// The requester's side of one sequence: its sampler, its detokenizer
/// and the channel its stream goes out on.
pub trait Client<L>: Detokenize {
    /// The next token drawn from `logits`, given the sequence so far.
    fn sample(&mut self, logits: L, history: &[u32]) -> (t: u32)
        ensures
            forall|t: Seq<u32>| final(self).spec_detokenize(t) == old(self).spec_detokenize(t),
    ;

    /// Deliver one event; `false` when the requester has gone away.
    fn send(&mut self, ev: StreamEvent) -> (delivered: bool)
        ensures
            forall|t: Seq<u32>| final(self).spec_detokenize(t) == old(self).spec_detokenize(t),
    ;
}

/// The requester's tokenizer: what a run of tokens decodes to.
pub trait Detokenize {
    /// Text of `tokens` with special tokens skipped, or `None` when they
    /// cannot be decoded: a function of the tokens, fixed by the
    /// tokenizer. An implementation states its tokenizer's decoding here;
    /// the default states none.
    open spec fn spec_detokenize(&self, tokens: Seq<u32>) -> Option<Seq<char>> {
        None
    }

    /// Text of `tokens` with special tokens skipped, or `None` when they
    /// cannot be decoded.
    fn detokenize(&self, tokens: &[u32]) -> (r: Option<String>)
        ensures
            match r {
                Some(t) => self.spec_detokenize(tokens@) == Some(t@),
                None => self.spec_detokenize(tokens@) is None,
            },
    ;
}

/// What the HTTP layer submits.
pub struct Request<C> {
    pub prompt_tokens: Vec<u32>,
    pub max_tokens: usize,
    pub stop: Vec<String>,
    pub eos_token_id: Option<u32>,
    /// Sampler, detokenizer and output channel of the requester.
    pub client: C,
}

/// Where a sequence is in its life.
#[derive(Debug, Clone, Copy, PartialEq, Eq, Structural)]
pub enum Phase {
    /// `done` prompt tokens are already in the runtime's KV state.
    Prefill { done: usize },
    Decode,
}

/// Abstract state of one sequence.
#[verifier::ext_equal]
pub struct SeqModel {
    pub id: u64,
    pub phase: Phase,
    /// Prompt followed by the generated tokens.
    pub tokens: Seq<u32>,
    pub prompt_len: nat,
    pub generated: Seq<u32>,
    /// Bytes of decoded text already emitted.
    pub emitted_len: nat,
    /// Admission order tick, used to pick preemption victims.
    pub admitted_at: u64,
    pub max_tokens: nat,
    pub stop: Seq<Seq<char>>,
    pub eos_token_id: Option<u32>,
    /// What a run of its tokens decodes to, by its requester's tokenizer.
    pub decode: spec_fn(Seq<u32>) -> Option<Seq<char>>,
}

impl SeqModel {
    /// A sequence is its prompt followed by what it generated, with a
    /// non-empty prompt and a prefill position inside the prompt.
    pub open spec fn well_formed(self) -> bool {
        &&& 1 <= self.prompt_len
        &&& self.tokens.len() == self.prompt_len + self.generated.len()
        &&& self.tokens.skip(self.prompt_len as int) == self.generated
        &&& self.tokens.len() < usize::MAX
        &&& match self.phase {
            Phase::Prefill { done } => done <= self.prompt_len,
            Phase::Decode => true,
        }
    }
}

/// A sequence sent back to the queue: its KV is gone, so it starts its
/// prefill again; everything else, generated tokens included, is kept.
pub open spec fn requeued(m: SeqModel) -> SeqModel {
    SeqModel { phase: Phase::Prefill { done: 0 }, ..m }
}

/// A sequence stamped with its admission tick.
pub open spec fn stamped(m: SeqModel, tick: u64) -> SeqModel {
    SeqModel { admitted_at: tick, ..m }
}

/// The sequence a request becomes when it is queued under `id`.
pub open spec fn queued<C: Detokenize>(id: u64, req: Request<C>) -> SeqModel {
    SeqModel {
        id,
        phase: Phase::Prefill { done: 0 },
        tokens: req.prompt_tokens@,
        prompt_len: req.prompt_tokens@.len(),
        generated: Seq::empty(),
        emitted_len: 0,
        admitted_at: 0,
        max_tokens: req.max_tokens as nat,
        stop: views(req.stop@),
        eos_token_id: req.eos_token_id,
        decode: |t: Seq<u32>| req.client.spec_detokenize(t),
    }
}

/// Abstract state of a [`Scheduler`].
pub struct SchedModel {
    pub max_batch: nat,
    pub prefill_chunk: nat,
    pub pool: PoolModel,
    /// Queue front first.
    pub waiting: Seq<SeqModel>,
    pub running: Seq<SeqModel>,
    pub next_id: u64,
    pub tick: u64,
    /// Every event handed to each sequence's requester, by sequence id,
    /// in the order sent.
    pub sent: Map<u64, Seq<SentEvent>>,
    /// The longest sequence the runtime holds.
    pub max_seq: nat,
    /// Every prefill and decode call made to the runtime, in order, with
    /// what it answered.
    pub calls: Seq<RuntimeCall>,
    /// The sequences whose state the runtime was told to drop, in order.
    pub dropped: Seq<u64>,
}

/// What a prefill call answered.
pub enum PrefillAnswer {
    /// Logits for the last position: the prompt is in.
    Logits,
    /// No logits (more of the prompt is to come).
    Pending,
    /// The runtime failed.
    Failed,
}

/// A call made to the runtime.
pub enum RuntimeCall {
    /// `prefill(seq, tokens, start, want_logits)`.
    Prefill { seq: u64, tokens: Seq<u32>, start: nat, want_logits: bool, answer: PrefillAnswer },
    /// `decode(batch)`; `ok` when it answered with logits.
    Decode { batch: Seq<(u64, u32)>, ok: bool },
}

/// What an event handed to a requester carries.
pub struct SentEvent {
    pub delta: Seq<char>,
    pub finish: Option<Seq<char>>,
    pub prompt_tokens: nat,
    pub completion_tokens: nat,
}

/// The view of a stream event.
pub open spec fn event_view(ev: StreamEvent) -> SentEvent {
    SentEvent {
        delta: ev.delta@,
        finish: match ev.finish_reason {
            Some(f) => Some(f@),
            None => None,
        },
        prompt_tokens: ev.prompt_tokens as nat,
        completion_tokens: ev.completion_tokens as nat,
    }
}

/// The events sent so far for sequence `id` (none when it has none).
pub open spec fn sent_to(log: Map<u64, Seq<SentEvent>>, id: u64) -> Seq<SentEvent> {
    if log.contains_key(id) {
        log[id]
    } else {
        Seq::empty()
    }
}

/// `log` with `evs` sent to `id` after what it already had.
pub open spec fn with_sent(log: Map<u64, Seq<SentEvent>>, id: u64, evs: Seq<SentEvent>) -> Map<
    u64,
    Seq<SentEvent>,
> {
    log.insert(id, sent_to(log, id) + evs)
}

/// The last event of a sequence: no text, the finish reason and the
/// token counts.
pub open spec fn final_event(prompt_tokens: nat, completion_tokens: nat, reason: Seq<char>) -> SentEvent {
    SentEvent { delta: Seq::empty(), finish: Some(reason), prompt_tokens, completion_tokens }
}

/// An event carrying newly emitted text.
pub open spec fn delta_event(delta: Seq<char>, prompt_tokens: nat, completion_tokens: nat) -> SentEvent {
    SentEvent { delta, finish: None, prompt_tokens, completion_tokens }
}

/// Whether a prompt of `len` tokens can be served by a runtime holding
/// sequences of at most `max_seq` positions: it must be non-empty and
/// leave room for at least one generated token.
pub open spec fn spec_admits(len: nat, max_seq: nat) -> bool {
    0 < len && len < max_seq
}

/// Whether a prompt of `len` tokens can be served by a runtime holding
/// sequences of at most `max_seq` positions.
pub fn admits(len: usize, max_seq: usize) -> (b: bool)
    ensures
        b == spec_admits(len as nat, max_seq as nat),
{
    len > 0 && len < max_seq
}

impl SchedModel {
    pub open spec fn running_has(self, id: u64) -> bool {
        exists|i: int| 0 <= i < self.running.len() && #[trigger] self.running[i].id == id
    }

    pub open spec fn waiting_has(self, id: u64) -> bool {
        exists|i: int| 0 <= i < self.waiting.len() && #[trigger] self.waiting[i].id == id
    }

    /// No id is used twice, queued or running.
    pub open spec fn ids_distinct(self) -> bool {
        &&& forall|i: int, j: int|
            #![trigger self.waiting[i], self.waiting[j]]
            0 <= i < j < self.waiting.len() ==> self.waiting[i].id != self.waiting[j].id
        &&& forall|i: int, j: int|
            #![trigger self.running[i], self.running[j]]
            0 <= i < j < self.running.len() ==> self.running[i].id != self.running[j].id
        &&& forall|i: int, j: int|
            #![trigger self.waiting[i], self.running[j]]
            0 <= i < self.waiting.len() && 0 <= j < self.running.len() ==> self.waiting[i].id
                != self.running[j].id
    }

    /// Every sequence is well formed and carries an id handed out before.
    pub open spec fn seqs_ok(self) -> bool {
        &&& forall|i: int|
            0 <= i < self.waiting.len() ==> (#[trigger] self.waiting[i]).well_formed()
                && self.waiting[i].id < self.next_id
        &&& forall|i: int|
            0 <= i < self.running.len() ==> (#[trigger] self.running[i]).well_formed()
                && self.running[i].id < self.next_id
    }

    /// Every running sequence still holds the blocks it was admitted
    /// with: its whole prompt plus one decode position.
    pub open spec fn admission_reserved(self) -> bool {
        forall|i: int|
            0 <= i < self.running.len() ==> self.pool.held_by((#[trigger] self.running[i]).id)
                >= spec_blocks_for(self.running[i].prompt_len + 1)
    }

    /// The pool holds blocks only for running sequences (and for `extra`,
    /// while it is being retired).
    pub open spec fn pool_owned(self, extra: Option<u64>) -> bool {
        forall|k: u64| #[trigger]
            self.pool.held.contains_key(k) ==> self.running_has(k) || extra == Some(k)
    }

    pub open spec fn well_formed_but(self, extra: Option<u64>) -> bool {
        &&& self.pool.well_formed()
        &&& 1 <= self.max_batch
        &&& 1 <= self.prefill_chunk
        &&& self.running.len() <= self.max_batch
        &&& self.seqs_ok()
        &&& self.ids_distinct()
        &&& self.admission_reserved()
        &&& self.pool_owned(extra)
    }

    /// The scheduler's invariant.
    pub open spec fn well_formed(self) -> bool {
        self.well_formed_but(None)
    }
}

/// How many queued sequences one admission round takes, and the pool it
/// leaves: the queue front is admitted while there is batch room and the
/// pool can reserve its prompt plus one position.
pub open spec fn admitted(pool: PoolModel, waiting: Seq<SeqModel>, room: int) -> (nat, PoolModel)
    decreases waiting.len(),
{
    if room <= 0 || waiting.len() == 0 {
        (0, pool)
    } else {
        let (p2, ok) = pool.reserve(waiting[0].id, (waiting[0].prompt_len + 1) as usize);
        if !ok {
            (0, pool)
        } else {
            let (k, p3) = admitted(p2, waiting.drop_first(), room - 1);
            ((k + 1) as nat, p3)
        }
    }
}

/// Taking `running[i]` out leaves a state that is well formed but for
/// the blocks that sequence still holds.
proof fn lemma_take_out(m: SchedModel, i: int)
    requires
        m.well_formed(),
        0 <= i < m.running.len(),
    ensures
        ({
            let s = m.running[i];
            let out = SchedModel { running: m.running.remove(i), ..m };
            &&& out.well_formed_but(Some(s.id))
            &&& !out.running_has(s.id)
            &&& !out.waiting_has(s.id)
            &&& s.well_formed()
            &&& s.id < m.next_id
            &&& out.running.len() < out.max_batch
            &&& out.pool.held_by(s.id) >= spec_blocks_for(s.prompt_len + 1)
        }),
{
    let s = m.running[i];
    let out = SchedModel { running: m.running.remove(i), ..m };
    assert forall|j: int| 0 <= j < out.running.len() implies #[trigger] out.running[j] == m.running[
        if j < i { j } else { j + 1 }
    ] by {}
    assert forall|k: u64| #[trigger] out.pool.held.contains_key(k) implies out.running_has(k) || Some(
        s.id,
    ) == Some(k) by {
        assert(m.running_has(k));
        let j = choose|j: int| 0 <= j < m.running.len() && #[trigger] m.running[j].id == k;
        if j < i {
            assert(out.running[j].id == k);
        } else if j > i {
            assert(out.running[j - 1].id == k);
        }
    }
    assert forall|j: int| 0 <= j < out.running.len() implies #[trigger] out.running[j].id != s.id by {
        let jj = if j < i { j } else { j + 1 };
        assert(m.running[jj] == out.running[j]);
        if jj < i {
            assert(m.running[jj].id != m.running[i].id);
        } else {
            assert(m.running[i].id != m.running[jj].id);
        }
    }
    assert forall|j: int| 0 <= j < out.waiting.len() implies #[trigger] out.waiting[j].id != s.id by {
        assert(m.waiting[j].id != m.running[i].id);
    }
    assert(out.ids_distinct()) by {
        assert forall|a: int, b: int|
            #![trigger out.running[a], out.running[b]]
            0 <= a < b < out.running.len() implies out.running[a].id != out.running[b].id by {
            let aa = if a < i { a } else { a + 1 };
            let bb = if b < i { b } else { b + 1 };
            assert(m.running[aa] == out.running[a]);
            assert(m.running[bb] == out.running[b]);
        }
        assert forall|a: int, b: int|
            #![trigger out.waiting[a], out.running[b]]
            0 <= a < out.waiting.len() && 0 <= b < out.running.len() implies out.waiting[a].id
            != out.running[b].id by {
            let bb = if b < i { b } else { b + 1 };
            assert(m.running[bb] == out.running[b]);
            assert(m.waiting[a].id != m.running[bb].id);
        }
    }
}

/// Putting a taken-out sequence back at `i` restores the invariant.
proof fn lemma_put_back(out: SchedModel, s: SeqModel, i: int)
    requires
        out.well_formed_but(Some(s.id)),
        !out.running_has(s.id),
        !out.waiting_has(s.id),
        s.well_formed(),
        s.id < out.next_id,
        out.running.len() < out.max_batch,
        out.pool.held_by(s.id) >= spec_blocks_for(s.prompt_len + 1),
        0 <= i <= out.running.len(),
    ensures
        (SchedModel { running: out.running.insert(i, s), ..out }).well_formed(),
{
    let m = SchedModel { running: out.running.insert(i, s), ..out };
    assert forall|j: int| 0 <= j < m.running.len() implies #[trigger] m.running[j] == (if j < i {
        out.running[j]
    } else if j == i {
        s
    } else {
        out.running[j - 1]
    }) by {}
    assert forall|k: u64| #[trigger] m.pool.held.contains_key(k) implies m.running_has(k) by {
        if k == s.id {
            assert(m.running[i].id == k);
        } else {
            assert(out.running_has(k));
            let j = choose|j: int| 0 <= j < out.running.len() && #[trigger] out.running[j].id == k;
            if j < i {
                assert(m.running[j].id == k);
            } else {
                assert(m.running[j + 1].id == k);
            }
        }
    }
    assert(m.seqs_ok());
    assert(m.admission_reserved());
    assert(m.ids_distinct()) by {
        assert forall|a: int, b: int|
            #![trigger m.running[a], m.running[b]]
            0 <= a < b < m.running.len() implies m.running[a].id != m.running[b].id by {
            if a != i && b != i {
                let aa = if a < i { a } else { a - 1 };
                let bb = if b < i { b } else { b - 1 };
                assert(out.running[aa] == m.running[a]);
                assert(out.running[bb] == m.running[b]);
            } else if a == i {
                let bb = b - 1;
                assert(out.running[bb] == m.running[b]);
                assert(out.running[bb].id != s.id);
            } else {
                assert(out.running[a] == m.running[a]);
                assert(out.running[a].id != s.id);
            }
        }
        assert forall|a: int, b: int|
            #![trigger m.waiting[a], m.running[b]]
            0 <= a < m.waiting.len() && 0 <= b < m.running.len() implies m.waiting[a].id
            != m.running[b].id by {
            if b == i {
                assert(out.waiting[a].id != s.id);
            } else {
                let bb = if b < i { b } else { b - 1 };
                assert(out.running[bb] == m.running[b]);
            }
        }
    }
}

/// Releasing the blocks of a taken-out sequence restores the invariant.
proof fn lemma_released(out: SchedModel, id: u64)
    requires
        out.well_formed_but(Some(id)),
        !out.running_has(id),
    ensures
        (SchedModel { pool: out.pool.release(id), ..out }).well_formed(),
{
    let m = SchedModel { pool: out.pool.release(id), ..out };
    crate::kv::law_release_keeps_accounting(out.pool, id);
    assert forall|j: int| 0 <= j < m.running.len() implies m.pool.held_by(
        (#[trigger] m.running[j]).id,
    ) >= spec_blocks_for(m.running[j].prompt_len + 1) by {
        assert(out.running[j].id != id);
    }
    assert forall|k: u64| #[trigger] m.pool.held.contains_key(k) implies m.running_has(k) by {
        assert(out.pool.held.contains_key(k));
    }
}

/// A taken-out sequence sent back to the queue front, its blocks
/// released, leaves the invariant intact.
proof fn lemma_requeue(out: SchedModel, s: SeqModel)
    requires
        out.well_formed_but(Some(s.id)),
        !out.running_has(s.id),
        !out.waiting_has(s.id),
        s.well_formed(),
        s.id < out.next_id,
    ensures
        (SchedModel {
            pool: out.pool.release(s.id),
            waiting: seq![requeued(s)] + out.waiting,
            ..out
        }).well_formed(),
{
    lemma_released(out, s.id);
    let r = SchedModel { pool: out.pool.release(s.id), ..out };
    let m = SchedModel { waiting: seq![requeued(s)] + out.waiting, ..r };
    assert forall|j: int| 0 <= j < m.waiting.len() implies #[trigger] m.waiting[j] == (if j == 0 {
        requeued(s)
    } else {
        out.waiting[j - 1]
    }) by {}
    assert(m.seqs_ok());
    assert forall|k: u64| #[trigger] m.pool.held.contains_key(k) implies m.running_has(k) by {
        assert(r.pool.held.contains_key(k));
    }
    assert(m.ids_distinct()) by {
        assert forall|a: int, b: int|
            #![trigger m.waiting[a], m.waiting[b]]
            0 <= a < b < m.waiting.len() implies m.waiting[a].id != m.waiting[b].id by {
            if a == 0 {
                assert(out.waiting[b - 1].id != s.id);
            } else {
                assert(out.waiting[a - 1].id != out.waiting[b - 1].id);
            }
        }
        assert forall|a: int, b: int|
            #![trigger m.waiting[a], m.running[b]]
            0 <= a < m.waiting.len() && 0 <= b < m.running.len() implies m.waiting[a].id
            != m.running[b].id by {
            if a == 0 {
                assert(out.running[b].id != s.id);
            } else {
                assert(out.waiting[a - 1].id != out.running[b].id);
            }
        }
    }
}


/// Moving the queue front into the running set, once the pool has
/// reserved its prompt plus one position, keeps the invariant.
proof fn lemma_admit_one(m: SchedModel, p2: PoolModel, t: u64)
    requires
        m.well_formed(),
        m.running.len() < m.max_batch,
        m.waiting.len() > 0,
        m.pool.reserve(m.waiting[0].id, (m.waiting[0].prompt_len + 1) as usize) == (p2, true),
    ensures
        (SchedModel {
            pool: p2,
            waiting: m.waiting.drop_first(),
            running: m.running.push(stamped(m.waiting[0], t)),
            tick: t,
            ..m
        }).well_formed(),
{
    let s = m.waiting[0];
    let need = (s.prompt_len + 1) as usize;
    assert(s.well_formed());
    crate::kv::law_reserve_outcome(m.pool, s.id, need);
    crate::kv::law_reserve_keeps_accounting(m.pool, s.id, need);
    let m2 = SchedModel {
        pool: p2,
        waiting: m.waiting.drop_first(),
        running: m.running.push(stamped(s, t)),
        tick: t,
        ..m
    };
    let n = m.running.len();
    assert forall|k: u64| #[trigger] p2.held_by(k) >= m.pool.held_by(k) by {}
    assert forall|j: int| 0 <= j < m2.running.len() implies #[trigger] m2.running[j] == (if j < n {
        m.running[j]
    } else {
        stamped(s, t)
    }) by {}
    assert forall|j: int| 0 <= j < m2.waiting.len() implies #[trigger] m2.waiting[j] == m.waiting[j
        + 1] by {}
    assert(m2.seqs_ok());
    assert forall|j: int| 0 <= j < m2.running.len() implies m2.pool.held_by(
        (#[trigger] m2.running[j]).id,
    ) >= spec_blocks_for(m2.running[j].prompt_len + 1) by {
        if j < n {
            assert(p2.held_by(m.running[j].id) >= m.pool.held_by(m.running[j].id));
        }
    }
    assert forall|k: u64| #[trigger] m2.pool.held.contains_key(k) implies m2.running_has(k) by {
        if k == s.id {
            assert(m2.running[n as int].id == k);
        } else {
            assert(m.pool.held.contains_key(k));
            let j = choose|j: int| 0 <= j < m.running.len() && #[trigger] m.running[j].id == k;
            assert(m2.running[j].id == k);
        }
    }
    assert(m2.ids_distinct()) by {
        assert forall|a: int, b: int|
            #![trigger m2.waiting[a], m2.waiting[b]]
            0 <= a < b < m2.waiting.len() implies m2.waiting[a].id != m2.waiting[b].id by {
            assert(m.waiting[a + 1].id != m.waiting[b + 1].id);
        }
        assert forall|a: int, b: int|
            #![trigger m2.running[a], m2.running[b]]
            0 <= a < b < m2.running.len() implies m2.running[a].id != m2.running[b].id by {
            if b == n {
                assert(m.waiting[0].id != m.running[a].id);
            }
        }
        assert forall|a: int, b: int|
            #![trigger m2.waiting[a], m2.running[b]]
            0 <= a < m2.waiting.len() && 0 <= b < m2.running.len() implies m2.waiting[a].id
            != m2.running[b].id by {
            if b == n {
                assert(m.waiting[0].id != m.waiting[a + 1].id);
            } else {
                assert(m.waiting[a + 1].id != m.running[b].id);
            }
        }
    }
}

/// An admission round keeps the pool's budget.
proof fn lemma_admitted_total(pool: PoolModel, waiting: Seq<SeqModel>, room: int)
    requires
        pool.well_formed(),
    ensures
        admitted(pool, waiting, room).1.total == pool.total,
        admitted(pool, waiting, room).1.well_formed(),
    decreases waiting.len(),
{
    if room > 0 && waiting.len() > 0 {
        let need = (waiting[0].prompt_len + 1) as usize;
        crate::kv::law_reserve_keeps_accounting(pool, waiting[0].id, need);
        let (p2, ok) = pool.reserve(waiting[0].id, need);
        if ok {
            lemma_admitted_total(p2, waiting.drop_first(), room - 1);
        }
    }
}

/// Why a sequence finished.
#[derive(Debug, Clone, Copy, PartialEq, Eq, Structural)]
pub enum FinishReason {
    Stop,
    Length,
    Error,
}

impl FinishReason {
    pub open spec fn label(self) -> Seq<char> {
        match self {
            FinishReason::Stop => "stop"@,
            FinishReason::Length => "length"@,
            FinishReason::Error => "error"@,
        }
    }

    fn text(self) -> (s: String)
        ensures
            s@ == self.label(),
    {
        match self {
            FinishReason::Stop => String::from_str("stop"),
            FinishReason::Length => String::from_str("length"),
            FinishReason::Error => String::from_str("error"),
        }
    }
}

/// What emitting newly decoded text led to.
pub enum Outcome {
    Continue,
    Finish(FinishReason),
    /// The requester went away.
    Gone,
}

/// The text a sequence that ran out of budget still has to deliver: what
/// its decoded text holds past the bytes already emitted, when that
/// starts on a character boundary.
pub open spec fn length_flush(decoded: Option<Seq<char>>, s: SeqModel) -> Seq<SentEvent> {
    match decoded {
        Some(t) => {
            let b = encode_utf8(t);
            if b.len() > s.emitted_len && is_char_boundary(b, s.emitted_len as int) {
                seq![
                    delta_event(
                        decode_utf8(b.subrange(s.emitted_len as int, b.len() as int)),
                        s.prompt_len,
                        s.generated.len(),
                    ),
                ]
            } else {
                Seq::empty()
            }
        },
        None => Seq::empty(),
    }
}

/// The events a finishing sequence is sent, given its decoded text: for a
/// length finish the text still held back, then the final event with
/// the reason.
pub open spec fn retire_events(decoded: Option<Seq<char>>, s: SeqModel, reason: FinishReason) -> Seq<SentEvent> {
    let flush = if reason == FinishReason::Length {
        length_flush(decoded, s)
    } else {
        Seq::empty()
    };
    flush.push(final_event(s.prompt_len, s.generated.len(), reason.label()))
}

/// What emitting newly decoded text does, given the decoded text (`None`
/// when the tokens could not be decoded), the stop strings and the bytes
/// emitted before: the outcome, the bytes emitted after and the events sent
/// (each carrying the token counts `pt` and `ct`). Whether a sent delta
/// leads to `Continue` or `Gone` is the requester's to decide.
pub open spec fn emit_outcome(
    decoded: Option<Seq<char>>,
    stops: Seq<Seq<char>>,
    emitted: nat,
    after: nat,
    o: Outcome,
    evs: Seq<SentEvent>,
    pt: nat,
    ct: nat,
) -> bool {
    match decoded {
        None => o == Outcome::Finish(FinishReason::Error) && after == emitted && evs == Seq::<SentEvent>::empty(),
        Some(text) => {
            let b = encode_utf8(text);
            match spec_text_step(text, stops, emitted) {
                TextStep::Stop { hit } => o == Outcome::Finish(FinishReason::Stop) && if emitted < hit
                    && slice_ok(b, emitted as int, hit as int) {
                    after == hit && evs == seq![
                        delta_event(decode_utf8(b.subrange(emitted as int, hit as int)), pt, ct),
                    ]
                } else {
                    after == emitted && evs == Seq::<SentEvent>::empty()
                },
                TextStep::Emit { upto } => if slice_ok(b, emitted as int, upto as int) {
                    &&& after == upto
                    &&& (o is Continue || o is Gone)
                    &&& evs == seq![delta_event(decode_utf8(b.subrange(emitted as int, upto as int)), pt, ct)]
                } else {
                    after == emitted && o is Continue && evs == Seq::<SentEvent>::empty()
                },
                TextStep::Hold => after == emitted && o is Continue && evs == Seq::<SentEvent>::empty(),
            }
        },
    }
}

/// A sequence with one more sampled token, having emitted `emitted`
/// bytes of text.
pub open spec fn with_token(s: SeqModel, token: u32, emitted: nat) -> SeqModel {
    SeqModel {
        tokens: s.tokens.push(token),
        generated: s.generated.push(token),
        emitted_len: emitted,
        ..s
    }
}

/// `i` is the first running sequence still in prefill.
pub open spec fn first_prefill(running: Seq<SeqModel>, i: int) -> bool {
    &&& 0 <= i < running.len()
    &&& running[i].phase is Prefill
    &&& forall|j: int| 0 <= j < i ==> #[trigger] running[j].phase is Decode
}

/// Prompt position reached after one more chunk of at most `chunk`
/// tokens.
pub open spec fn chunk_done(s: SeqModel, chunk: nat) -> nat {
    match s.phase {
        Phase::Prefill { done } => if s.prompt_len - done < chunk {
            s.prompt_len
        } else {
            (done + chunk) as nat
        },
        Phase::Decode => s.prompt_len,
    }
}

/// What one prefill chunk of running sequence `i` may lead to, by what
/// the model answers: the prompt advances by one chunk; or the sequence
/// finishes (a failed prefill, or a first token that ends it) and gives
/// its blocks back; or, its prompt complete, it decodes with its first
/// token.
/// The prompt position a sequence in prefill has reached (0 once it
/// decodes).
pub open spec fn prefill_done(s: SeqModel) -> nat {
    match s.phase {
        Phase::Prefill { done } => done as nat,
        Phase::Decode => 0,
    }
}

/// What the last runtime call answered, for a prefill call.
pub open spec fn prefill_answer(calls: Seq<RuntimeCall>) -> PrefillAnswer {
    match calls.last() {
        RuntimeCall::Prefill { answer, .. } => answer,
        RuntimeCall::Decode { .. } => PrefillAnswer::Failed,
    }
}

/// One prefill chunk of running sequence `i`: the runtime is handed the
/// prompt tokens from where the sequence stands up to one chunk further
/// (asking for logits exactly on the last chunk), and by its answer the
/// prompt advances by the chunk; or the sequence finishes with an `error`
/// event and gives its blocks back; or, its prompt complete, it decodes
/// and takes its first sampled token as [`took_token`] says.
pub open spec fn prefill_outcome(old: SchedModel, new: SchedModel, i: int) -> bool {
    let s = old.running[i];
    let done = prefill_done(s);
    let upto = chunk_done(s, old.prefill_chunk);
    let answer = prefill_answer(new.calls);
    &&& new.waiting == old.waiting
    &&& new.calls == old.calls.push(
        RuntimeCall::Prefill {
            seq: s.id,
            tokens: s.tokens.subrange(done as int, upto as int),
            start: done,
            want_logits: upto == s.prompt_len,
            answer,
        },
    )
    &&& match answer {
        PrefillAnswer::Pending => {
            &&& new.pool == old.pool
            &&& new.sent == old.sent
            &&& new.running == old.running.update(
                i,
                SeqModel { phase: Phase::Prefill { done: upto as usize }, ..s },
            )
        },
        PrefillAnswer::Failed => {
            &&& new.pool == old.pool.release(s.id)
            &&& new.running == old.running.remove(i)
            &&& new.sent == with_sent(
                old.sent,
                s.id,
                seq![final_event(s.prompt_len, s.generated.len(), "error"@)],
            )
        },
        PrefillAnswer::Logits => exists|t: u32, w: TokenWitness|
            #[trigger] took_token(SeqModel { phase: Phase::Decode, ..s }, t, old.max_seq, w) && new.sent
                == with_sent(old.sent, s.id, w.sent) && match w.kept {
                Some(s1) => new.running == old.running.update(i, s1) && new.pool == old.pool,
                None => new.running == old.running.remove(i) && new.pool == old.pool.release(s.id),
            },
    }
}

/// Positions a sequence may still generate: its `max_tokens`, capped by
/// what the runtime's longest sequence leaves after the prompt.
pub open spec fn token_budget(s: SeqModel, max_seq: nat) -> nat {
    let avail: nat = if max_seq > s.prompt_len {
        (max_seq - s.prompt_len) as nat
    } else {
        0
    };
    if s.max_tokens < avail {
        s.max_tokens
    } else {
        avail
    }
}

/// What the requester's side answered while one token was taken in: the
/// decoded text, the bytes emitted after it, the emission outcome, the
/// events sent on the way, and the text decoded again for a length
/// finish.
pub struct TokenWitness {
    pub decoded: Option<Seq<char>>,
    pub emitted: nat,
    pub outcome: Outcome,
    pub evs: Seq<SentEvent>,
    pub flushed: Option<Seq<char>>,
    /// Every event the sequence was sent while taking the token.
    pub sent: Seq<SentEvent>,
    /// The sequence as it runs on, or `None` when it finished.
    pub kept: Option<SeqModel>,
}

/// What taking `token` does to sequence `s`, given what the requester's
/// side answered (`w`): its EOS token finishes it with `stop`. Otherwise
/// the new text is emitted (see [`emit_outcome`]); it then keeps running
/// with the token appended unless emission finished it, its requester
/// left, or its budget is used up (a `length` finish). `w.sent` is every
/// event it was sent on the way, `w.kept` how it runs on.
#[verifier::opaque]
pub open spec fn took_token(s: SeqModel, token: u32, max_seq: nat, w: TokenWitness) -> bool {
    if s.eos_token_id == Some(token) {
        &&& w.kept is None
        &&& w.sent == seq![final_event(s.prompt_len, s.generated.len(), "stop"@)]
    } else {
        let s1 = with_token(s, token, w.emitted);
        &&& w.decoded == (s.decode)(s.generated.push(token))
        &&& emit_outcome(
            w.decoded,
            s.stop,
            s.emitted_len,
            w.emitted,
            w.outcome,
            w.evs,
            s.prompt_len,
            s.generated.len() + 1,
        )
        &&& match w.outcome {
            Outcome::Continue => if s1.generated.len() >= token_budget(s, max_seq) {
                w.kept is None && w.sent == w.evs + retire_events(w.flushed, s1, FinishReason::Length)
            } else {
                w.kept == Some(s1) && w.sent == w.evs
            },
            Outcome::Finish(r) => w.kept is None && w.sent == w.evs + retire_events(w.flushed, s1, r),
            Outcome::Gone => w.kept is None && w.sent == w.evs,
        }
    }
}

/// Taking `token` into the taken-out sequence `s`, which goes back at
/// `idx` if it keeps running (see [`took_token`]); a finished sequence
/// gives its blocks back.
pub open spec fn token_step(
    old: SchedModel,
    new: SchedModel,
    idx: int,
    s: SeqModel,
    token: u32,
    max_seq: nat,
    w: TokenWitness,
) -> bool {
    &&& new.waiting == old.waiting
    &&& took_token(s, token, max_seq, w)
    &&& new.sent == with_sent(old.sent, s.id, w.sent)
    &&& new.dropped == if w.kept is None {
        old.dropped.push(s.id)
    } else {
        old.dropped
    }
    &&& match w.kept {
        Some(s1) => new.running == old.running.insert(idx, s1) && new.pool == old.pool,
        None => new.running == old.running && new.pool == old.pool.release(s.id),
    }
}

/// Sending `a` and then `b` to `id` sends `a + b`.
pub proof fn lemma_with_sent_twice(log: Map<u64, Seq<SentEvent>>, id: u64, a: Seq<SentEvent>, b: Seq<SentEvent>)
    ensures
        with_sent(with_sent(log, id, a), id, b) == with_sent(log, id, a + b),
{
    assert(sent_to(with_sent(log, id, a), id) == sent_to(log, id) + a);
    assert(sent_to(log, id) + a + b =~= sent_to(log, id) + (a + b));
}

/// The batch a decode round hands the runtime: each decoding sequence
/// of `run`, in order, with its last token.
pub open spec fn decode_batch(run: Seq<SeqModel>) -> Seq<(u64, u32)>
    decreases run.len(),
{
    if run.len() == 0 {
        Seq::empty()
    } else {
        let rest = decode_batch(run.drop_last());
        if run.last().phase is Decode {
            rest.push((run.last().id, run.last().tokens.last()))
        } else {
            rest
        }
    }
}

/// What one decode round did to the decoding sequence `s`, whose events
/// before the round were `before`: when the runtime failed, `s` finished
/// with an `error` event; otherwise it took one sampled token as
/// [`took_token`] says, and was sent what that sends.
pub open spec fn decoded_seq(s: SeqModel, before: Map<u64, Seq<SentEvent>>, f: SchedModel, ok: bool) -> bool {
    if !ok {
        &&& !has_id(f.running, s.id)
        &&& sent_to(f.sent, s.id) == sent_to(before, s.id) + seq![
            final_event(s.prompt_len, s.generated.len(), "error"@),
        ]
    } else {
        exists|t: u32, w: TokenWitness|
            #[trigger] took_token(s, t, f.max_seq, w) && sent_to(f.sent, s.id) == sent_to(before, s.id) + w.sent
                && match w.kept {
                Some(s1) => f.running.contains(s1),
                None => !has_id(f.running, s.id),
            }
    }
}

/// Whether the last runtime call succeeded (for a decode call).
pub open spec fn last_call_ok(calls: Seq<RuntimeCall>) -> bool {
    match calls.last() {
        RuntimeCall::Decode { ok, .. } => ok,
        RuntimeCall::Prefill { .. } => false,
    }
}

/// One decode round took `m` to `f`: when some sequence decodes, the
/// runtime was handed [`decode_batch`] once, and each decoding sequence
/// then fared as [`decoded_seq`] says by the answer; every other sequence
/// runs on untouched and is sent nothing.
pub open spec fn decode_round(m: SchedModel, f: SchedModel) -> bool {
    &&& f.waiting == m.waiting
    &&& f.max_seq == m.max_seq
    &&& if decode_batch(m.running).len() == 0 {
        f.calls == m.calls && f.running == m.running && f.sent == m.sent
    } else {
        &&& f.calls == m.calls.push(RuntimeCall::Decode { batch: decode_batch(m.running), ok: last_call_ok(f.calls) })
        &&& forall|j: int|
            0 <= j < m.running.len() ==> if (#[trigger] m.running[j]).phase is Decode {
                decoded_seq(m.running[j], m.sent, f, last_call_ok(f.calls))
            } else {
                f.running.contains(m.running[j]) && sent_to(f.sent, m.running[j].id) == sent_to(
                    m.sent,
                    m.running[j].id,
                )
            }
    }
}

/// Preemption went youngest first: of the sequences other than `id`,
/// every one sent back from `old_run` was admitted no earlier than every
/// one still running in `run`.
#[verifier::opaque]
pub open spec fn youngest_first(old_run: Seq<SeqModel>, run: Seq<SeqModel>, id: u64) -> bool {
    forall|x: SeqModel, y: SeqModel|
        #![trigger old_run.contains(x), run.contains(y)]
        old_run.contains(x) && !run.contains(x) && x.id != id && run.contains(y) && y.id != id ==> y.admitted_at
            <= x.admitted_at
}

/// Room for decoding was made youngest first: every sequence sent back
/// from `old_run` was admitted no earlier than every sequence still
/// running in `run`, except a decoding sequence that room was being made
/// for.
#[verifier::opaque]
pub open spec fn preempted_youngest_first(old_run: Seq<SeqModel>, run: Seq<SeqModel>) -> bool {
    forall|x: SeqModel, y: SeqModel|
        #![trigger old_run.contains(x), run.contains(y)]
        old_run.contains(x) && !run.contains(x) && run.contains(y) ==> y.admitted_at <= x.admitted_at
            || y.phase is Decode
}

/// One `ensure_room` round for the decoding sequence `id` of `start`
/// keeps room-making youngest first.
proof fn lemma_preempted_step(
    start: Seq<SeqModel>,
    run: Seq<SeqModel>,
    run2: Seq<SeqModel>,
    id: u64,
)
    requires
        preempted_youngest_first(start, run),
        youngest_first(run, run2, id),
        drawn_from(run, start),
        drawn_from(run2, run),
        forall|a: int, b: int| 0 <= a < b < start.len() ==> start[a].id != start[b].id,
        forall|j: int| 0 <= j < start.len() && #[trigger] start[j].id == id ==> start[j].phase is Decode,
        run2.len() == 0 || has_id(run2, id),
    ensures
        preempted_youngest_first(start, run2),
{
    reveal(preempted_youngest_first);
    reveal(youngest_first);
    assert forall|x: SeqModel, y: SeqModel|
        #![trigger start.contains(x), run2.contains(y)]
        start.contains(x) && !run2.contains(x) && run2.contains(y) implies y.admitted_at <= x.admitted_at
            || y.phase is Decode by {
        let ky = choose|k: int| 0 <= k < run2.len() && run2[k] == y;
        assert(run.contains(run2[ky]));
        assert(run.contains(y));
        let ky1 = choose|k: int| 0 <= k < run.len() && run[k] == y;
        assert(start.contains(run[ky1]));
        if run.contains(x) {
            let kx = choose|k: int| 0 <= k < run.len() && run[k] == x;
            assert(start.contains(run[kx]));
            if y.id == id {
                let j = choose|j: int| 0 <= j < start.len() && start[j] == y;
                assert(start[j].id == id);
            } else if x.id == id {
                // `id` itself leaves only when nothing else runs.
                let k = choose|k: int| 0 <= k < run2.len() && #[trigger] run2[k].id == id;
                assert(run.contains(run2[k]));
                let k1 = choose|k1: int| 0 <= k1 < run.len() && run[k1] == run2[k];
                assert(start.contains(run[k1]));
                let a = choose|a: int| 0 <= a < start.len() && start[a] == x;
                let b = choose|b: int| 0 <= b < start.len() && start[b] == run2[k];
                assert(a == b);
            }
        }
    }
}

/// Every sequence of `before` still runs in `run`, or was sent back to
/// the queue `wait` to restart its prefill.
#[verifier::opaque]
pub open spec fn kept_or_requeued(before: Seq<SeqModel>, run: Seq<SeqModel>, wait: Seq<SeqModel>) -> bool {
    forall|x: SeqModel| #[trigger] before.contains(x) ==> run.contains(x) || wait.contains(requeued(x))
}

/// Preempting the youngest other sequence keeps preemption youngest first.
proof fn lemma_youngest_step(start: Seq<SeqModel>, run: Seq<SeqModel>, run2: Seq<SeqModel>, id: u64, vi: int)
    requires
        youngest_first(start, run, id),
        drawn_from(run, start),
        is_youngest_other(run, id, vi),
        run2 == run.remove(vi),
        forall|a: int, b: int| 0 <= a < b < run.len() ==> run[a].id != run[b].id,
    ensures
        youngest_first(start, run2, id),
{
    reveal(youngest_first);
    assert forall|x: SeqModel, y: SeqModel|
        #![trigger start.contains(x), run2.contains(y)]
        start.contains(x) && !run2.contains(x) && x.id != id && run2.contains(y) && y.id != id implies y.admitted_at
            <= x.admitted_at by {
        let ky = choose|k: int| 0 <= k < run2.len() && run2[k] == y;
        let ky0 = if ky < vi { ky } else { ky + 1 };
        assert(run[ky0] == y);
        assert(run.contains(y));
        if run.contains(x) {
            let kx = choose|k: int| 0 <= k < run.len() && run[k] == x;
            if kx != vi {
                let k2 = if kx < vi { kx } else { kx - 1 };
                assert(run2[k2] == x);
            }
            assert(kx == vi);
            assert(run[ky0].id != id);
        }
    }
}

/// When no other sequence runs, sending back `id` itself keeps
/// preemption youngest first.
proof fn lemma_youngest_none(start: Seq<SeqModel>, run: Seq<SeqModel>, run2: Seq<SeqModel>, id: u64, wi: int)
    requires
        youngest_first(start, run, id),
        0 <= wi < run.len(),
        run[wi].id == id,
        run2 == run.remove(wi),
        forall|j: int| 0 <= j < run.len() ==> #[trigger] run[j].id == id,
    ensures
        youngest_first(start, run2, id),
{
    reveal(youngest_first);
    assert forall|x: SeqModel, y: SeqModel|
        #![trigger start.contains(x), run2.contains(y)]
        start.contains(x) && !run2.contains(x) && x.id != id && run2.contains(y) && y.id != id implies y.admitted_at
            <= x.admitted_at by {
        let ky = choose|k: int| 0 <= k < run2.len() && run2[k] == y;
        let ky0 = if ky < wi { ky } else { ky + 1 };
        assert(run[ky0] == y);
    }
}

/// Standing through two rounds of preemption.
proof fn lemma_kept_or_requeued_trans(
    start: Seq<SeqModel>,
    run: Seq<SeqModel>,
    wait: Seq<SeqModel>,
    run2: Seq<SeqModel>,
    wait2: Seq<SeqModel>,
)
    requires
        kept_or_requeued(start, run, wait),
        kept_or_requeued(run, run2, wait2),
        requeued_onto(wait2, wait),
    ensures
        kept_or_requeued(start, run2, wait2),
{
    reveal(kept_or_requeued);
    assert forall|x: SeqModel| #[trigger] start.contains(x) implies run2.contains(x) || wait2.contains(requeued(x)) by {
        if !run.contains(x) {
            let k = choose|k: int| 0 <= k < wait.len() && wait[k] == requeued(x);
            let d = wait2.len() - wait.len();
            assert(wait2.skip(d)[k] == wait[k]);
            assert(wait2[d + k] == requeued(x));
        }
    }
}

proof fn lemma_kept_or_requeued_step(
    start: Seq<SeqModel>,
    run: Seq<SeqModel>,
    wait: Seq<SeqModel>,
    run2: Seq<SeqModel>,
    wait2: Seq<SeqModel>,
    p: int,
)
    requires
        kept_or_requeued(start, run, wait),
        0 <= p < run.len(),
        run2 == run.remove(p),
        wait2 == seq![requeued(run[p])] + wait,
    ensures
        kept_or_requeued(start, run2, wait2),
{
    reveal(kept_or_requeued);
    assert forall|x: SeqModel| #[trigger] start.contains(x) implies run2.contains(x) || wait2.contains(requeued(x)) by {
        if run.contains(x) {
            let k = choose|k: int| 0 <= k < run.len() && run[k] == x;
            if k == p {
                assert(wait2[0] == requeued(x));
            } else {
                let k2 = if k < p { k } else { k - 1 };
                assert(run2[k2] == x);
            }
        } else {
            let k = choose|k: int| 0 <= k < wait.len() && wait[k] == requeued(x);
            assert(wait2[k + 1] == requeued(x));
        }
    }
}

/// Some sequence in `run` has id `id`.
pub open spec fn has_id(run: Seq<SeqModel>, id: u64) -> bool {
    exists|k: int| 0 <= k < run.len() && #[trigger] run[k].id == id
}

/// Where sequence `s` stands in `run` after one decode round: a decoding
/// sequence has finished (no sequence with its id runs) or runs with one
/// more token; a sequence still in prefill runs unchanged.
pub open spec fn advanced(s: SeqModel, run: Seq<SeqModel>) -> bool {
    if s.phase is Decode {
        !has_id(run, s.id) || exists|t: u32, e: nat| run.contains(#[trigger] with_token(s, t, e))
    } else {
        run.contains(s)
    }
}

/// One decode round took the running set `before` to `after`: every
/// decoding sequence got exactly one token or finished, and every other
/// sequence is untouched.
pub open spec fn decode_progress(before: Seq<SeqModel>, after: Seq<SeqModel>) -> bool {
    forall|j: int| 0 <= j < before.len() ==> advanced(#[trigger] before[j], after)
}

/// One admission round took `old` to `m`: the queue front that fits is
/// admitted, stamped in admission order (see [`admitted`]).
pub open spec fn admitted_into(old: SchedModel, m: SchedModel) -> bool {
    let (k, p) = admitted(old.pool, old.waiting, old.max_batch - old.running.len());
    &&& m.pool == p
    &&& m.waiting == old.waiting.skip(k as int)
    &&& m.running == old.running + Seq::new(k, |i: int| stamped(old.waiting[i], (old.tick + i + 1) as u64))
    &&& m.tick == old.tick + k
    &&& m.sent == old.sent
    &&& m.calls == old.calls
    &&& m.max_seq == old.max_seq
}

/// One prefill round took `old` to `new`: nothing changes when no
/// sequence is in prefill; otherwise the first one advances as
/// [`prefill_outcome`] says.
pub open spec fn prefilled(old: SchedModel, new: SchedModel) -> bool {
    &&& (forall|i: int| 0 <= i < old.running.len() ==> #[trigger] old.running[i].phase is Decode) ==> new
        == old
    &&& forall|i: int| #[trigger] first_prefill(old.running, i) ==> prefill_outcome(old, new, i)
}

/// The three stages of one scheduler step, through the states `m1`
/// (after admission), `m2` (after the prefill chunk) and `m3` (after room
/// was made for decoding, as [`rooms_made`] says: the pool reserves when it
/// can, and only when it cannot are running sequences sent back to the
/// front of the queue, youngest first): each decoding sequence of `m3` then
/// took one token or finished, by the runtime's answer to the one decode
/// call, with the events that sends (see [`decode_round`]).
pub open spec fn step_stages(old: SchedModel, m1: SchedModel, m2: SchedModel, m3: SchedModel, f: SchedModel) -> bool {
    &&& admitted_into(old, m1)
    &&& prefilled(m1, m2)
    &&& drawn_from(m3.running, m2.running)
    &&& kept_or_requeued(m2.running, m3.running, m3.waiting)
    &&& preempted_youngest_first(m2.running, m3.running)
    &&& (m3.running, m3.pool) == rooms_made(m2.pool, m2.running, decode_needs(m2.running))
    &&& requeued_onto(m3.waiting, m2.waiting)
    &&& m3.sent == m2.sent
    &&& m3.calls == m2.calls
    &&& m3.max_seq == m2.max_seq
    &&& decode_progress(m3.running, f.running)
    &&& decode_round(m3, f)
}

struct Sequence<C> {
    id: u64,
    req: Request<C>,
    phase: Phase,
    tokens: Vec<u32>,
    prompt_len: usize,
    generated: Vec<u32>,
    emitted_len: usize,
    admitted_at: u64,
}

impl<C: Detokenize> Sequence<C> {
    spec fn model(&self) -> SeqModel {
        SeqModel {
            id: self.id,
            phase: self.phase,
            tokens: self.tokens@,
            prompt_len: self.prompt_len as nat,
            generated: self.generated@,
            emitted_len: self.emitted_len as nat,
            admitted_at: self.admitted_at,
            max_tokens: self.req.max_tokens as nat,
            stop: views(self.req.stop@),
            eos_token_id: self.req.eos_token_id,
            decode: |t: Seq<u32>| self.req.client.spec_detokenize(t),
        }
    }
}

/// Copies `src[from..to]`.
fn copy_tokens(src: &[u32], from: usize, to: usize) -> (out: Vec<u32>)
    requires
        from <= to <= src@.len(),
    ensures
        out@ == src@.subrange(from as int, to as int),
{
    let mut out: Vec<u32> = Vec::new();
    let mut i = from;
    while i < to
        invariant
            from <= i <= to <= src@.len(),
            out@ == src@.subrange(from as int, i as int),
        decreases to - i,
    {
        out.push(src[i]);
        assert(src@.subrange(from as int, i + 1) =~= src@.subrange(from as int, i as int).push(
            src@[i as int],
        ));
        i = i + 1;
    }
    out
}

proof fn lemma_boundary_in_range(s: &str, i: int)
    requires
        vstd::utf8::is_char_boundary(s.spec_bytes(), i),
    ensures
        0 <= i <= s.spec_bytes().len(),
{
    vstd::utf8::encode_utf8_valid_utf8(s@);
    lemma_boundary_range(s.spec_bytes(), i);
}

/// Text encodes to no bytes exactly when it is empty.
proof fn lemma_encode_empty_iff(x: Seq<char>)
    ensures
        encode_utf8(x).len() == 0 <==> x.len() == 0,
{
    if x.len() > 0 {
        vstd::utf8::encode_utf8_decode_utf8(x);
        vstd::utf8::encode_utf8_valid_utf8(x);
        if encode_utf8(x).len() == 0 {
            assert(vstd::utf8::decode_utf8(encode_utf8(x)) =~= Seq::<char>::empty());
        }
    }
}

/// A character boundary lies inside the bytes.
proof fn lemma_boundary_range(b: Seq<u8>, i: int)
    requires
        valid_utf8(b),
        is_char_boundary(b, i),
    ensures
        0 <= i <= b.len(),
{
}

/// Past a boundary `from`, the boundaries of the rest are those of the
/// whole, shifted by `from`.
proof fn lemma_boundary_suffix(b: Seq<u8>, from: int, j: int)
    requires
        valid_utf8(b),
        is_char_boundary(b, from),
        0 <= j,
    ensures
        is_char_boundary(b.subrange(from, b.len() as int), j) <==> is_char_boundary(b, from + j),
{
    lemma_boundary_range(b, from);
    let t = b.subrange(from, b.len() as int);
    vstd::utf8::valid_utf8_split(b, from);
    assert(valid_utf8(t));
    if j == 0 {
    } else if j < t.len() {
        vstd::utf8::is_char_boundary_iff_not_is_continuation_byte(t, j);
        vstd::utf8::is_char_boundary_iff_not_is_continuation_byte(b, from + j);
        assert(t[j] == b[from + j]);
    } else if j == t.len() {
        vstd::utf8::is_char_boundary_start_end_of_seq(t);
        vstd::utf8::is_char_boundary_start_end_of_seq(b);
    } else {
        assert(!is_char_boundary(t, j));
        assert(!is_char_boundary(b, from + j));
    }
}

/// Before a boundary `hit`, the boundaries of the head are those of the
/// whole up to `hit`.
proof fn lemma_boundary_prefix(b: Seq<u8>, hit: int, i: int)
    requires
        valid_utf8(b),
        is_char_boundary(b, hit),
    ensures
        is_char_boundary(b.subrange(0, hit), i) <==> (i <= hit && is_char_boundary(b, i)),
{
    lemma_boundary_range(b, hit);
    let h = b.subrange(0, hit);
    vstd::utf8::valid_utf8_split(b, hit);
    assert(valid_utf8(h));
    if i < 0 {
        assert(!is_char_boundary(h, i));
        assert(!is_char_boundary(b, i));
    } else if i == 0 {
    } else if i < hit {
        vstd::utf8::is_char_boundary_iff_not_is_continuation_byte(h, i);
        vstd::utf8::is_char_boundary_iff_not_is_continuation_byte(b, i);
        assert(h[i] == b[i]);
    } else if i == hit {
        vstd::utf8::is_char_boundary_start_end_of_seq(h);
    } else {
        assert(!is_char_boundary(h, i));
    }
}

/// The bytes of `text` from `from` to `to` form whole characters.
pub open spec fn slice_ok(text: Seq<u8>, from: int, to: int) -> bool {
    from <= to && is_char_boundary(text, from) && is_char_boundary(text, to)
}

/// `text[..hit].get(from..)` as an owned string: the bytes from `from` to
/// `hit` when both are char boundaries with `from <= hit`, else empty.
fn stop_delta(text: &str, hit: usize, from: usize) -> (d: String)
    ensures
        if slice_ok(text.spec_bytes(), from as int, hit as int) {
            encode_utf8(d@) == text.spec_bytes().subrange(from as int, hit as int)
        } else {
            d@ == Seq::<char>::empty()
        },
{
    proof {
        vstd::utf8::encode_utf8_valid_utf8(text@);
    }
    if text.is_char_boundary(hit) {
        let (head, _) = text.split_at(hit);
        proof {
            lemma_boundary_prefix(text.spec_bytes(), hit as int, from as int);
        }
        if head.is_char_boundary(from) {
            proof {
                lemma_boundary_in_range(text, hit as int);
                lemma_boundary_in_range(head, from as int);
            }
            let (_, d) = head.split_at(from);
            assert(d.spec_bytes() =~= text.spec_bytes().subrange(from as int, hit as int));
            return d.to_owned();
        }
    }
    String::new()
}

/// `text[from..to]` as an owned string, when both are char boundaries
/// with `from <= to`.
fn byte_range(text: &str, from: usize, to: usize) -> (d: Option<String>)
    ensures
        d is Some <==> slice_ok(text.spec_bytes(), from as int, to as int),
        d matches Some(s) ==> encode_utf8(s@) == text.spec_bytes().subrange(from as int, to as int),
{
    proof {
        vstd::utf8::encode_utf8_valid_utf8(text@);
    }
    if from <= to && text.is_char_boundary(from) {
        let (_, tail) = text.split_at(from);
        proof {
            lemma_boundary_suffix(text.spec_bytes(), from as int, (to - from) as int);
        }
        if tail.is_char_boundary(to - from) {
            proof {
                lemma_boundary_in_range(text, from as int);
                lemma_boundary_in_range(tail, (to - from) as int);
            }
            let (d, _) = tail.split_at(to - from);
            assert(d.spec_bytes() =~= text.spec_bytes().subrange(from as int, to as int));
            return Some(d.to_owned());
        }
    }
    None
}

/// `text[from..]` as an owned string, when `from` is a char boundary.
fn byte_tail(text: &str, from: usize) -> (d: Option<String>)
    ensures
        d is Some <==> is_char_boundary(text.spec_bytes(), from as int),
        d matches Some(s) ==> encode_utf8(s@) == text.spec_bytes().subrange(
            from as int,
            text.spec_bytes().len() as int,
        ),
{
    if text.is_char_boundary(from) {
        proof {
            lemma_boundary_in_range(text, from as int);
        }
        let (_, d) = text.split_at(from);
        return Some(d.to_owned());
    }
    None
}

/// Continuous-batching scheduler over a [`BatchModel`].
pub struct Scheduler<M: BatchModel, C: Client<M::Logits>> {
    model: M,
    cfg: SchedulerConfig,
    pool: KvPool,
    waiting: VecDeque<Sequence<C>>,
    running: Vec<Sequence<C>>,
    next_id: u64,
    tick: u64,
    sent: Ghost<Map<u64, Seq<SentEvent>>>,
    calls: Ghost<Seq<RuntimeCall>>,
    dropped: Ghost<Seq<u64>>,
    /// How many drops the runtime had served before this scheduler.
    drops_base: Ghost<u64>,
}

impl<M: BatchModel, C: Client<M::Logits>> View for Scheduler<M, C> {
    type V = SchedModel;

    closed spec fn view(&self) -> SchedModel {
        SchedModel {
            max_batch: self.cfg.max_batch as nat,
            prefill_chunk: self.cfg.prefill_chunk as nat,
            pool: self.pool@,
            waiting: self.waiting@.map_values(|s: Sequence<C>| s.model()),
            running: self.running@.map_values(|s: Sequence<C>| s.model()),
            next_id: self.next_id,
            tick: self.tick,
            sent: self.sent@,
            max_seq: self.model.spec_max_seq_len() as nat,
            calls: self.calls@,
            dropped: self.dropped@,
        }
    }
}

impl<M: BatchModel, C: Client<M::Logits>> Scheduler<M, C> {
    /// The scheduler's invariant holds.
    /// The longest sequence the runtime holds.
    pub closed spec fn model_max_seq_len(&self) -> usize {
        self.model.spec_max_seq_len()
    }

    pub closed spec fn wf(&self) -> bool {
        self.pool.inv() && self@.well_formed() && self.drops_tracked()
    }

    /// The drop log is the runtime's own: it counts the drops the runtime
    /// served since the scheduler took it over, and ends with the last.
    spec fn drops_tracked(&self) -> bool {
        &&& self.drops_base@ + self.dropped@.len() < u64::MAX ==> self.model.spec_drops()
            == self.drops_base@ + self.dropped@.len()
        &&& self.dropped@.len() > 0 ==> self.model.spec_last_dropped() == self.dropped@.last()
    }

    /// Sequence `id` has left the running set but may still hold blocks.
    spec fn wf_loose(&self, id: u64) -> bool {
        &&& self.pool.inv()
        &&& self.drops_tracked()
        &&& self@.well_formed_but(Some(id))
        &&& !self@.running_has(id)
        &&& !self@.waiting_has(id)
    }

    /// `seq` has been taken out of the running set (it may still hold
    /// blocks) and is about to be put back or retired.
    spec fn wf_out(&self, seq: &Sequence<C>) -> bool {
        &&& self.wf_loose(seq.id)
        &&& seq.model().well_formed()
        &&& seq.id < self@.next_id
        &&& self@.running.len() < self@.max_batch
        &&& self@.pool.held_by(seq.id) >= spec_blocks_for((seq.prompt_len + 1) as nat)
    }

    /// A scheduler over `model`: the batch limit is clamped to what the
    /// runtime supports, the prefill chunk is at least one token, and the
    /// pool has at least one block.
    pub fn new(model: M, cfg: SchedulerConfig) -> (s: Self)
        ensures
            s.wf(),
            s@.waiting.len() == 0,
            s@.running.len() == 0,
            s@.next_id == 1,
            s@.tick == 0,
            s@.sent == Map::<u64, Seq<SentEvent>>::empty(),
            s@.prefill_chunk == (if cfg.prefill_chunk == 0 {
                1
            } else {
                cfg.prefill_chunk as nat
            }),
            s@.max_batch == if cfg.max_batch < 1 {
                1
            } else if cfg.max_batch > model.spec_max_batch() {
                model.spec_max_batch() as nat
            } else {
                cfg.max_batch as nat
            },
            s@.pool == (PoolModel {
                total: if spec_blocks_for(cfg.kv_pool_tokens as nat) == 0 {
                    1
                } else {
                    spec_blocks_for(cfg.kv_pool_tokens as nat)
                },
                used: 0,
                held: Map::empty(),
            }),
    {
        let limit = model.max_batch();
        let ghost base = model.spec_drops();
        let mut cfg = cfg;
        cfg.max_batch = if cfg.max_batch < 1 {
            1
        } else if cfg.max_batch > limit {
            limit
        } else {
            cfg.max_batch
        };
        if cfg.prefill_chunk < 1 {
            cfg.prefill_chunk = 1;
        }
        let blocks = KvPool::blocks_for(cfg.kv_pool_tokens);
        let pool = KvPool::new(if blocks < 1 { 1 } else { blocks });
        let s = Scheduler {
            model,
            cfg,
            pool,
            waiting: VecDeque::new(),
            running: Vec::new(),
            next_id: 1,
            tick: 0,
            sent: Ghost(Map::empty()),
            calls: Ghost(Seq::empty()),
            dropped: Ghost(Seq::empty()),
            drops_base: Ghost(base),
        };
        assert(s@.waiting =~= Seq::<SeqModel>::empty());
        assert(s@.running =~= Seq::<SeqModel>::empty());
        s
    }

    /// Queued and running sequence counts.
    pub fn counts(&self) -> (c: (usize, usize))
        ensures
            c.0 == self@.waiting.len(),
            c.1 == self@.running.len(),
    {
        (self.waiting.len(), self.running.len())
    }

    /// The effective batch limit.
    pub fn max_batch(&self) -> (n: usize)
        ensures
            n == self@.max_batch,
    {
        self.cfg.max_batch
    }

    /// The effective prefill chunk.
    pub fn prefill_chunk(&self) -> (n: usize)
        ensures
            n == self@.prefill_chunk,
    {
        self.cfg.prefill_chunk
    }

    /// The id the next request will get.
    pub fn next_id(&self) -> (n: u64)
        ensures
            n == self@.next_id,
    {
        self.next_id
    }

    /// Admissions so far.
    pub fn tick(&self) -> (n: u64)
        ensures
            n == self@.tick,
    {
        self.tick
    }

    /// Nothing queued and nothing running.
    pub fn is_idle(&self) -> (b: bool)
        ensures
            b == (self@.waiting.len() == 0 && self@.running.len() == 0),
    {
        self.waiting.len() == 0 && self.running.len() == 0
    }

    /// Position of the running sequence `id`.
    fn position_of(&self, id: u64) -> (r: Option<usize>)
        ensures
            match r {
                Some(i) => i < self@.running.len() && self@.running[i as int].id == id,
                None => forall|i: int| 0 <= i < self@.running.len() ==> #[trigger] self@.running[i].id != id,
            },
    {
        let mut i: usize = 0;
        while i < self.running.len()
            invariant
                i <= self@.running.len(),
                self@.running.len() == self.running@.len(),
                forall|j: int| 0 <= j < i ==> #[trigger] self@.running[j].id != id,
            decreases self.running@.len() - i,
        {
            if self.running[i].id == id {
                return Some(i);
            }
            i = i + 1;
        }
        None
    }

    /// Position of the oldest running sequence still in its prefill.
    fn first_prefilling(&self) -> (r: Option<usize>)
        ensures
            match r {
                Some(i) => first_prefill(self@.running, i as int),
                None => forall|i: int| 0 <= i < self@.running.len() ==> #[trigger] self@.running[i].phase is Decode,
            },
    {
        let mut i: usize = 0;
        while i < self.running.len()
            invariant
                i <= self@.running.len(),
                self@.running.len() == self.running@.len(),
                forall|j: int| 0 <= j < i ==> #[trigger] self@.running[j].phase is Decode,
            decreases self.running@.len() - i,
        {
            match self.running[i].phase {
                Phase::Prefill { .. } => {
                    return Some(i);
                },
                Phase::Decode => {},
            }
            i = i + 1;
        }
        None
    }

    /// The most recently admitted running sequence other than `id` (the
    /// last one, should two share a tick).
    fn youngest_other(&self, id: u64) -> (r: Option<u64>)
        ensures
            r is None <==> forall|j: int| 0 <= j < self@.running.len() ==> #[trigger] self@.running[j].id == id,
            r matches Some(v) ==> exists|i: int|
                #![trigger self@.running[i]]
                0 <= i < self@.running.len() && self@.running[i].id == v && v != id
                    && is_youngest_other(self@.running, id, i),
    {
        let mut best: Option<usize> = None;
        let mut i: usize = 0;
        while i < self.running.len()
            invariant
                i <= self@.running.len(),
                self@.running.len() == self.running@.len(),
                match best {
                    None => forall|j: int| 0 <= j < i ==> #[trigger] self@.running[j].id == id,
                    Some(b) => b < i && self@.running[b as int].id != id && is_youngest_other(
                        self@.running.take(i as int),
                        id,
                        b as int,
                    ),
                },
            decreases self.running@.len() - i,
        {
            if self.running[i].id != id {
                let take = match best {
                    None => true,
                    Some(b) => self.running[i].admitted_at >= self.running[b].admitted_at,
                };
                if take {
                    best = Some(i);
                }
            }
            proof {
                let t = self@.running.take(i + 1);
                assert forall|j: int| 0 <= j < i implies #[trigger] t[j] == self@.running.take(
                    i as int,
                )[j] by {}
            }
            i = i + 1;
        }
        assert(self@.running.take(self@.running.len() as int) =~= self@.running);
        match best {
            None => None,
            Some(b) => Some(self.running[b].id),
        }
    }
    /// Finish a taken-out sequence: release its blocks and its runtime
    /// state, flush held-back text when it ran out of budget, and send the
    /// final event.
    fn retire(&mut self, seq: Sequence<C>, reason: FinishReason)
        requires
            old(self).wf_loose(seq.id),
        ensures
            final(self).wf(),
            same_config(old(self)@, final(self)@),
            final(self)@.calls == old(self)@.calls,
            final(self)@.dropped == old(self)@.dropped.push(seq.id),
            final(self)@.running == old(self)@.running,
            final(self)@.waiting == old(self)@.waiting,
            final(self)@.pool == old(self)@.pool.release(seq.id),
            exists|decoded: Option<Seq<char>>|
                final(self)@.sent == with_sent(
                    old(self)@.sent,
                    seq.id,
                    #[trigger] retire_events(decoded, seq.model(), reason),
                ),
    {
        let mut seq = seq;
        self.pool.release(seq.id);
        self.model.drop_seq(seq.id);
        self.dropped = Ghost(self.dropped@.push(seq.id));
        proof {
            lemma_released(old(self)@, seq.id);
            assert(self@ == (SchedModel {
                pool: old(self)@.pool.release(seq.id),
                dropped: old(self)@.dropped.push(seq.id),
                ..old(self)@
            }));
        }
        let ghost sm = seq.model();
        let ghost mut decoded: Option<Seq<char>> = None;
        let ghost mut flush: Seq<SentEvent> = Seq::empty();
        if reason == FinishReason::Length {
            match seq.req.client.detokenize(seq.generated.as_slice()) {
                Some(text) => {
                    proof {
                        decoded = Some(text@);
                    }
                    if text.as_str().as_bytes().len() > seq.emitted_len {
                        match byte_tail(text.as_str(), seq.emitted_len) {
                            Some(delta) => {
                                proof {
                                    vstd::utf8::encode_utf8_decode_utf8(delta@);
                                }
                                let ev = StreamEvent {
                                    delta,
                                    finish_reason: None,
                                    prompt_tokens: seq.prompt_len,
                                    completion_tokens: seq.generated.len(),
                                };
                                proof {
                                    flush = seq![event_view(ev)];
                                }
                                let _ = seq.req.client.send(ev);
                            },
                            None => {},
                        }
                    }
                },
                None => {},
            }
        }
        let ev = StreamEvent {
            delta: String::new(),
            finish_reason: Some(reason.text()),
            prompt_tokens: seq.prompt_len,
            completion_tokens: seq.generated.len(),
        };
        let ghost last = event_view(ev);
        let _ = seq.req.client.send(ev);
        proof {
            assert(last == final_event(sm.prompt_len, sm.generated.len(), reason.label()));
            assert(flush == length_flush(decoded, sm) || reason != FinishReason::Length);
            assert(retire_events(decoded, sm, reason) == flush.push(last));
        }
        self.sent = Ghost(with_sent(self.sent@, seq.id, flush.push(last)));
    }

    /// Drop a taken-out sequence without a word (its requester left).
    fn retire_silently(&mut self, seq: Sequence<C>)
        requires
            old(self).wf_loose(seq.id),
        ensures
            final(self).wf(),
            same_config(old(self)@, final(self)@),
            final(self)@.calls == old(self)@.calls,
            final(self)@.dropped == old(self)@.dropped.push(seq.id),
            final(self)@.running == old(self)@.running,
            final(self)@.waiting == old(self)@.waiting,
            final(self)@.pool == old(self)@.pool.release(seq.id),
            final(self)@.sent == old(self)@.sent,
    {
        self.pool.release(seq.id);
        self.model.drop_seq(seq.id);
        self.dropped = Ghost(self.dropped@.push(seq.id));
        proof {
            lemma_released(old(self)@, seq.id);
            assert(self@ == (SchedModel {
                pool: old(self)@.pool.release(seq.id),
                dropped: old(self)@.dropped.push(seq.id),
                ..old(self)@
            }));
        }
    }

    /// Take `running[idx]` out of the running set.
    fn take_out(&mut self, idx: usize) -> (seq: Sequence<C>)
        requires
            old(self).wf(),
            idx < old(self)@.running.len(),
        ensures
            final(self).wf_out(&seq),
            seq.model() == old(self)@.running[idx as int],
            final(self)@ == (SchedModel { running: old(self)@.running.remove(idx as int), ..old(self)@ }),
    {
        let seq = self.running.remove(idx);
        proof {
            lemma_take_out(old(self)@, idx as int);
            assert(self@.running =~= old(self)@.running.remove(idx as int));
        }
        seq
    }

    /// Put a taken-out sequence back at `idx`.
    fn put_back(&mut self, idx: usize, seq: Sequence<C>)
        requires
            old(self).wf_out(&seq),
            idx <= old(self)@.running.len(),
        ensures
            final(self).wf(),
            final(self)@ == (SchedModel { running: old(self)@.running.insert(idx as int, seq.model()), ..old(self)@ }),
    {
        let ghost sm = seq.model();
        self.running.insert(idx, seq);
        proof {
            lemma_put_back(old(self)@, sm, idx as int);
            assert(self@.running =~= old(self)@.running.insert(idx as int, sm));
        }
    }

    /// Remove `running[idx]`, send its final event and release its
    /// resources.
    fn finish(&mut self, idx: usize, reason: FinishReason)
        requires
            old(self).wf(),
            idx < old(self)@.running.len(),
        ensures
            final(self).wf(),
            same_config(old(self)@, final(self)@),
            final(self)@.calls == old(self)@.calls,
            final(self)@.dropped == old(self)@.dropped.push(old(self)@.running[idx as int].id),
            exists|decoded: Option<Seq<char>>|
                final(self)@.sent == with_sent(
                    old(self)@.sent,
                    old(self)@.running[idx as int].id,
                    #[trigger] retire_events(decoded, old(self)@.running[idx as int], reason),
                ),
            final(self)@.running == old(self)@.running.remove(idx as int),
            final(self)@.waiting == old(self)@.waiting,
            final(self)@.pool == old(self)@.pool.release(old(self)@.running[idx as int].id),
    {
        let seq = self.take_out(idx);
        self.retire(seq, reason);
    }

    /// Move running sequence `id` back to the front of the queue, dropping
    /// its KV; the tokens it generated are kept, and its prefill starts
    /// over.
    fn preempt(&mut self, id: u64)
        requires
            old(self).wf(),
        ensures
            final(self).wf(),
            same_config(old(self)@, final(self)@),
            final(self)@.sent == old(self)@.sent,
            final(self)@.calls == old(self)@.calls,
            (forall|i: int| 0 <= i < old(self)@.running.len() ==> #[trigger] old(self)@.running[i].id != id)
                ==> final(self)@ == old(self)@,
            forall|i: int|
                0 <= i < old(self)@.running.len() && #[trigger] old(self)@.running[i].id == id ==> {
                    &&& final(self)@.running == old(self)@.running.remove(i)
                    &&& final(self)@.waiting == seq![requeued(old(self)@.running[i])] + old(self)@.waiting
                    &&& final(self)@.pool == old(self)@.pool.release(id)
                    &&& final(self)@.dropped == old(self)@.dropped.push(id)
                },
    {
        let idx = match self.position_of(id) {
            Some(i) => i,
            None => {
                return ;
            },
        };
        let ghost m = self@;
        let mut seq = self.take_out(idx);
        let ghost out = self@;
        self.pool.release(seq.id);
        self.model.drop_seq(seq.id);
        self.dropped = Ghost(self.dropped@.push(seq.id));
        seq.phase = Phase::Prefill { done: 0 };
        let ghost sm = seq.model();
        self.waiting.push_front(seq);
        proof {
            lemma_requeue(out, m.running[idx as int]);
            assert(sm == requeued(m.running[idx as int]));
            assert(self@.waiting =~= seq![sm] + out.waiting);
            assert forall|i: int|
                0 <= i < m.running.len() && #[trigger] m.running[i].id == id implies i == idx by {
                if i != idx {
                    if i < idx {
                        assert(m.running[i].id != m.running[idx as int].id);
                    } else {
                        assert(m.running[idx as int].id != m.running[i].id);
                    }
                }
            }
        }
    }


    /// Make sure `id` can hold `need` positions of KV, preempting the most
    /// recently admitted other sequences as needed. Returns `false` when no
    /// room could be made; `id` itself is then preempted.
    #[verifier::spinoff_prover]
    #[verifier::rlimit(100)]
    fn ensure_room(&mut self, id: u64, need: usize) -> (r: bool)
        requires
            old(self).wf(),
            old(self)@.running_has(id),
        ensures
            final(self).wf(),
            same_config(old(self)@, final(self)@),
            final(self)@.sent == old(self)@.sent,
            final(self)@.calls == old(self)@.calls,
            r ==> final(self)@.running_has(id) && final(self)@.pool.held_by(id) >= spec_blocks_for(
                need as nat,
            ),
            !r ==> !final(self)@.running_has(id),
            final(self)@.running.len() <= old(self)@.running.len(),
            drawn_from(final(self)@.running, old(self)@.running),
            forall|k: u64|
                final(self)@.running_has(k) ==> #[trigger] final(self)@.pool.held_by(k)
                    >= old(self)@.pool.held_by(k),
            requeued_onto(final(self)@.waiting, old(self)@.waiting),
            kept_or_requeued(old(self)@.running, final(self)@.running, final(self)@.waiting),
            old(self)@.pool.reserve(id, need).1 ==> r && final(self)@ == (SchedModel {
                pool: old(self)@.pool.reserve(id, need).0,
                ..old(self)@
            }),
            youngest_first(old(self)@.running, final(self)@.running, id),
            !r ==> final(self)@.running.len() == 0,
            final(self)@.running == room_made(old(self)@.pool, old(self)@.running, id, need).0,
            final(self)@.pool == room_made(old(self)@.pool, old(self)@.running, id, need).1,
            r == room_made(old(self)@.pool, old(self)@.running, id, need).2,
    {
        proof {
            lemma_requeued_onto_refl(self@.waiting);
            reveal(kept_or_requeued);
            assert(kept_or_requeued(old(self)@.running, self@.running, self@.waiting));
            reveal(youngest_first);
        }
        loop
            invariant
                self.wf(),
                self@.running_has(id),
                requeued_onto(self@.waiting, old(self)@.waiting),
                same_config(old(self)@, self@),
                self@.sent == old(self)@.sent,
                self@.calls == old(self)@.calls,
                kept_or_requeued(old(self)@.running, self@.running, self@.waiting),
                youngest_first(old(self)@.running, self@.running, id),
                self@ == old(self)@ || !old(self)@.pool.reserve(id, need).1,
                room_made(self@.pool, self@.running, id, need) == room_made(old(self)@.pool, old(self)@.running, id, need),
                old(self)@.ids_distinct(),
                self@.running.len() <= old(self)@.running.len(),
                drawn_from(self@.running, old(self)@.running),
                forall|k: u64|
                    self@.running_has(k) ==> #[trigger] self@.pool.held_by(k) >= old(
                        self,
                    )@.pool.held_by(k),
            decreases self@.running.len(),
        {
            let ghost before = self@;
            if self.pool.reserve(id, need) {
                proof {
                    crate::kv::law_reserve_outcome(before.pool, id, need);
                    crate::kv::law_reserve_keeps_accounting(before.pool, id, need);
                    assert(self@ == (SchedModel { pool: self@.pool, ..before }));
                    assert(self@.running == before.running);
                    assert forall|k: u64| #[trigger] self@.pool.held_by(k) >= before.pool.held_by(k) by {}
                    assert forall|j: int| 0 <= j < self@.running.len() implies self@.pool.held_by(
                        (#[trigger] self@.running[j]).id,
                    ) >= spec_blocks_for(self@.running[j].prompt_len + 1) by {
                        assert(self@.pool.held_by(self@.running[j].id) >= before.pool.held_by(self@.running[j].id));
                    }
                    assert forall|k: u64| #[trigger] self@.pool.held.contains_key(k) implies self@.running_has(k) by {
                        if k != id {
                            assert(before.pool.held.contains_key(k));
                        }
                    }
                }
                return true;
            }
            proof {
                crate::kv::law_reserve_outcome(before.pool, id, need);
            }
            match self.youngest_other(id) {
                Some(v) => {
                    let ghost vi = choose|i: int|
                        #![trigger before.running[i]]
                        0 <= i < before.running.len() && before.running[i].id == v && v != id
                            && is_youngest_other(before.running, id, i);
                    self.preempt(v);
                    proof {
                        assert(self@.running == before.running.remove(vi));
                        let ci = choose|i: int| is_youngest_other(before.running, id, i);
                        lemma_youngest_other_unique(before.running, id, ci, vi);
                        assert(room_made(before.pool, before.running, id, need) == room_made(self@.pool, self@.running, id, need));
                        lemma_kept_or_requeued_step(old(self)@.running, before.running, before.waiting, self@.running, self@.waiting, vi);
                        lemma_youngest_step(old(self)@.running, before.running, self@.running, id, vi);
                        lemma_requeued_onto_push_front(requeued(before.running[vi]), before.waiting, old(self)@.waiting);
                        assert forall|i: int| 0 <= i < self@.running.len() implies #[trigger] old(
                            self,
                        )@.running.contains(self@.running[i]) by {
                            let ii = if i < vi { i } else { i + 1 };
                            assert(self@.running[i] == before.running[ii]);
                            assert(old(self)@.running.contains(before.running[ii]));
                            let j = choose|j: int|
                                0 <= j < old(self)@.running.len() && old(self)@.running[j]
                                    == before.running[ii];
                            assert(old(self)@.running[j] == self@.running[i]);
                        }
                        let wi = choose|i: int| 0 <= i < before.running.len() && #[trigger] before.running[i].id == id;
                        assert(wi != vi);
                        if wi < vi {
                            assert(self@.running[wi].id == id);
                        } else {
                            assert(self@.running[wi - 1].id == id);
                        }
                        assert forall|k: u64| self@.running_has(k) implies #[trigger] self@.pool.held_by(k)
                            >= old(self)@.pool.held_by(k) by {
                            let i = choose|i: int| 0 <= i < self@.running.len() && #[trigger] self@.running[i].id == k;
                            let ii = if i < vi { i } else { i + 1 };
                            assert(self@.running[i] == before.running[ii]);
                            assert(before.running_has(k));
                            if k == v {
                                assert(before.running[vi].id == before.running[ii].id);
                            }
                        }
                    }
                },
                None => {
                    self.preempt(id);
                    proof {
                        let wi = choose|i: int| 0 <= i < before.running.len() && #[trigger] before.running[i].id == id;
                        assert(self@.running == before.running.remove(wi));
                        lemma_kept_or_requeued_step(old(self)@.running, before.running, before.waiting, self@.running, self@.waiting, wi);
                        lemma_youngest_none(old(self)@.running, before.running, self@.running, id, wi);
                        assert(before.ids_distinct());
                        if before.running.len() > 1 {
                            let other = if wi == 0 { 1int } else { 0int };
                            assert(before.running[other].id == id);
                            assert(false);
                        }
                        lemma_requeued_onto_push_front(requeued(before.running[wi]), before.waiting, old(self)@.waiting);
                        assert(!exists|i: int| is_youngest_other(before.running, id, i));
                        assert(self@.running =~= Seq::<SeqModel>::empty());
                        assert forall|i: int| 0 <= i < self@.running.len() implies #[trigger] self@.running[i].id != id by {
                            let ii = if i < wi { i } else { i + 1 };
                            assert(self@.running[i] == before.running[ii]);
                            if ii < wi {
                                assert(before.running[ii].id != before.running[wi].id);
                            } else {
                                assert(before.running[wi].id != before.running[ii].id);
                            }
                        }
                        assert forall|i: int| 0 <= i < self@.running.len() implies #[trigger] old(
                            self,
                        )@.running.contains(self@.running[i]) by {
                            let ii = if i < wi { i } else { i + 1 };
                            assert(self@.running[i] == before.running[ii]);
                            assert(old(self)@.running.contains(before.running[ii]));
                            let j = choose|j: int|
                                0 <= j < old(self)@.running.len() && old(self)@.running[j]
                                    == before.running[ii];
                            assert(old(self)@.running[j] == self@.running[i]);
                        }
                    }
                    return false;
                },
            }
        }
    }

    /// Queue a request under the next id. A request whose prompt is empty,
    /// or at least as long as the runtime's context, is answered at once
    /// with a final "error" event and not queued.
    pub fn enqueue(&mut self, req: Request<C>)
        requires
            old(self).wf(),
            old(self)@.next_id < u64::MAX,
        ensures
            final(self).wf(),
            final(self)@.next_id == old(self)@.next_id + 1,
            final(self)@.running == old(self)@.running,
            final(self)@.pool == old(self)@.pool,
            final(self)@.tick == old(self)@.tick,
            final(self)@.max_batch == old(self)@.max_batch,
            final(self)@.prefill_chunk == old(self)@.prefill_chunk,
            if spec_admits(req.prompt_tokens@.len(), old(self).model_max_seq_len() as nat) {
                &&& final(self)@.waiting == old(self)@.waiting.push(queued(old(self)@.next_id, req))
                &&& final(self)@.sent == old(self)@.sent
            } else {
                &&& final(self)@.waiting == old(self)@.waiting
                &&& final(self)@.sent == with_sent(
                    old(self)@.sent,
                    old(self)@.next_id,
                    seq![final_event(req.prompt_tokens@.len(), 0, "error"@)],
                )
            },
            final(self).model_max_seq_len() == old(self).model_max_seq_len(),
    {
        let id = self.next_id;
        self.next_id = self.next_id + 1;
        let max_seq = self.model.max_seq_len();
        let n = req.prompt_tokens.len();
        if !admits(n, max_seq) {
            let mut req = req;
            let ev = StreamEvent {
                delta: String::new(),
                finish_reason: Some(String::from_str("error")),
                prompt_tokens: n,
                completion_tokens: 0,
            };
            let ghost ev_v = event_view(ev);
            let _ = req.client.send(ev);
            proof {
                reveal_strlit("error");
                assert(ev_v == final_event(n as nat, 0, "error"@));
            }
            self.sent = Ghost(with_sent(self.sent@, id, seq![ev_v]));
            proof {
                assert(self@ == (SchedModel {
                    next_id: (id + 1) as u64,
                    sent: with_sent(old(self)@.sent, id, seq![ev_v]),
                    ..old(self)@
                }));
            }
            return ;
        }
        let tokens = copy_tokens(req.prompt_tokens.as_slice(), 0, n);
        let ghost q = queued(id, req);
        let seq = Sequence {
            id,
            req,
            phase: Phase::Prefill { done: 0 },
            tokens,
            prompt_len: n,
            generated: Vec::new(),
            emitted_len: 0,
            admitted_at: 0,
        };
        proof {
            assert(seq.tokens@ =~= q.tokens);
            assert(seq.generated@ =~= q.generated);
            assert(seq.model() == q);
            assert(q.tokens.skip(n as int) =~= Seq::<u32>::empty());
        }
        self.waiting.push_back(seq);
        proof {
            let m = old(self)@;
            assert(self@.waiting =~= m.waiting.push(q));
            let m2 = self@;
            assert(m2 == (SchedModel { waiting: m.waiting.push(q), next_id: (id + 1) as u64, ..m }));
            assert forall|i: int| 0 <= i < m2.waiting.len() implies #[trigger] m2.waiting[i] == (if i
                < m.waiting.len() {
                m.waiting[i]
            } else {
                q
            }) by {}
            assert(m2.seqs_ok());
            assert(m2.ids_distinct());
        }
    }

    /// Admit queued sequences, oldest first, while there is batch room and
    /// the pool can reserve each one's prompt plus one decode position;
    /// each admitted sequence is stamped with the next tick.
    pub fn admit_waiting(&mut self)
        requires
            old(self).wf(),
            old(self)@.tick + old(self)@.waiting.len() <= u64::MAX,
        ensures
            final(self).wf(),
            ({
                let (k, p) = admitted(
                    old(self)@.pool,
                    old(self)@.waiting,
                    old(self)@.max_batch - old(self)@.running.len(),
                );
                &&& final(self)@.pool == p
                &&& final(self)@.waiting == old(self)@.waiting.skip(k as int)
                &&& final(self)@.running == old(self)@.running + Seq::new(
                    k,
                    |i: int| stamped(old(self)@.waiting[i], (old(self)@.tick + i + 1) as u64),
                )
                &&& final(self)@.tick == old(self)@.tick + k
            }),
            final(self)@.next_id == old(self)@.next_id,
            final(self)@.max_batch == old(self)@.max_batch,
            final(self)@.prefill_chunk == old(self)@.prefill_chunk,
            final(self)@.pool.total == old(self)@.pool.total,
            final(self)@.sent == old(self)@.sent,
            final(self)@.calls == old(self)@.calls,
            final(self)@.max_seq == old(self)@.max_seq,
    {
        let ghost m0 = self@;
        proof {
            lemma_admitted_total(m0.pool, m0.waiting, m0.max_batch - m0.running.len());
        }
        let ghost mut k: nat = 0;
        let mut go = true;
        proof {
            assert(m0.waiting.skip(0) =~= m0.waiting);
            assert(m0.running + Seq::new(0, |i: int| stamped(m0.waiting[i], (m0.tick + i + 1) as u64))
                =~= m0.running);
        }
        while go
            invariant
                self.wf(),
                m0 == old(self)@,
                k <= m0.waiting.len(),
                self@.waiting == m0.waiting.skip(k as int),
                self@.running == m0.running + Seq::new(
                    k,
                    |i: int| stamped(m0.waiting[i], (m0.tick + i + 1) as u64),
                ),
                self@.tick == m0.tick + k,
                self@.next_id == m0.next_id,
                self@.sent == m0.sent,
                self@.calls == m0.calls,
                self@.max_seq == m0.max_seq,
                self@.max_batch == m0.max_batch,
                self@.prefill_chunk == m0.prefill_chunk,
                m0.tick + m0.waiting.len() <= u64::MAX,
                admitted(m0.pool, m0.waiting, m0.max_batch - m0.running.len()) == ({
                    let (k2, p2) = admitted(
                        self@.pool,
                        self@.waiting,
                        self@.max_batch - self@.running.len(),
                    );
                    ((k + k2) as nat, p2)
                }),
                !go ==> admitted(self@.pool, self@.waiting, self@.max_batch - self@.running.len())
                    == (0nat, self@.pool),
            decreases self@.waiting.len() + (if go { 1int } else { 0int }),
        {
            if self.running.len() >= self.cfg.max_batch || self.waiting.len() == 0 {
                go = false;
            } else {
                let ghost before = self@;
                let id = self.waiting[0].id;
                let need = self.waiting[0].prompt_len + 1;
                proof {
                    assert(before.waiting[0].well_formed());
                    crate::kv::law_reserve_outcome(before.pool, id, need);
                    crate::kv::law_reserve_keeps_accounting(before.pool, id, need);
                }
                if self.pool.reserve(id, need) {
                    let mut seq = match self.waiting.pop_front() {
                        Some(s) => s,
                        None => {
                            return ;
                        },
                    };
                    self.tick = self.tick + 1;
                    seq.admitted_at = self.tick;
                    let ghost sm = seq.model();
                    self.running.push(seq);
                    proof {
                        lemma_admit_one(before, self@.pool, self.tick);
                        assert(sm == stamped(before.waiting[0], self.tick));
                        assert(self@.waiting =~= before.waiting.drop_first());
                        assert(self@.running =~= before.running.push(sm));
                        assert(self@ == (SchedModel {
                            pool: before.pool.reserve(id, need).0,
                            waiting: before.waiting.drop_first(),
                            running: before.running.push(stamped(before.waiting[0], self.tick)),
                            tick: self.tick,
                            ..before
                        }));
                        assert(self@.waiting =~= m0.waiting.skip((k + 1) as int));
                        assert(self@.running =~= m0.running + Seq::new(
                            (k + 1) as nat,
                            |i: int| stamped(m0.waiting[i], (m0.tick + i + 1) as u64),
                        ));
                        k = k + 1;
                    }
                } else {
                    go = false;
                }
            }
        }
    }

    /// Emit what newly decoded text allows for `seq`: up to a stop string
    /// (then finish), up to the safe offset, or nothing. Only the count
    /// of emitted bytes changes, and it never decreases.
    fn emit_text(seq: &mut Sequence<C>, decoded: Option<String>) -> (r: (Outcome, Ghost<Seq<SentEvent>>))
        ensures
            final(seq).model() == (SeqModel {
                emitted_len: final(seq).emitted_len as nat,
                ..old(seq).model()
            }),
            final(seq).emitted_len >= old(seq).emitted_len,
            emit_outcome(
                match decoded {
                    Some(t) => Some(t@),
                    None => None,
                },
                old(seq).model().stop,
                old(seq).emitted_len as nat,
                final(seq).emitted_len as nat,
                r.0,
                r.1@,
                old(seq).prompt_len as nat,
                old(seq).generated@.len(),
            ),
    {
        match decoded {
            None => {
                let g: Ghost<Seq<SentEvent>> = Ghost(Seq::empty());
                (Outcome::Finish(FinishReason::Error), g)
            },
            Some(text) => {
                let ghost stops = old(seq).model().stop;
                let ghost em = old(seq).emitted_len as nat;
                assert(seq.req.stop@ == old(seq).req.stop@);
                let step = text_step(text.as_str(), seq.req.stop.as_slice(), seq.emitted_len);
                assert(step == spec_text_step(text@, stops, em));
                match step {
                    TextStep::Stop { hit } => {
                        let delta = stop_delta(text.as_str(), hit, seq.emitted_len);
                        proof {
                            lemma_encode_empty_iff(delta@);
                            let b = encode_utf8(text@);
                            vstd::utf8::encode_utf8_valid_utf8(text@);
                            if slice_ok(b, em as int, hit as int) {
                                lemma_boundary_range(b, em as int);
                                lemma_boundary_range(b, hit as int);
                            }
                        }
                        if !delta.as_str().is_empty() {
                            seq.emitted_len = hit;
                            proof {
                                vstd::utf8::encode_utf8_decode_utf8(delta@);
                            }
                            let ev = StreamEvent {
                                delta,
                                finish_reason: None,
                                prompt_tokens: seq.prompt_len,
                                completion_tokens: seq.generated.len(),
                            };
                            let ghost v = event_view(ev);
                            let _ = seq.req.client.send(ev);
                            let g: Ghost<Seq<SentEvent>> = Ghost(Seq::empty().push(v));
                            return (Outcome::Finish(FinishReason::Stop), g);
                        }
                        let g: Ghost<Seq<SentEvent>> = Ghost(Seq::empty());
                        (Outcome::Finish(FinishReason::Stop), g)
                    },
                    TextStep::Emit { upto } => {
                        match byte_range(text.as_str(), seq.emitted_len, upto) {
                            Some(delta) => {
                                seq.emitted_len = upto;
                                proof {
                                    vstd::utf8::encode_utf8_decode_utf8(delta@);
                                }
                                let ev = StreamEvent {
                                    delta,
                                    finish_reason: None,
                                    prompt_tokens: seq.prompt_len,
                                    completion_tokens: seq.generated.len(),
                                };
                                let g: Ghost<Seq<SentEvent>> = Ghost(Seq::empty().push(event_view(ev)));
                                if seq.req.client.send(ev) {
                                    (Outcome::Continue, g)
                                } else {
                                    (Outcome::Gone, g)
                                }
                            },
                            None => {
                                let g: Ghost<Seq<SentEvent>> = Ghost(Seq::empty());
                                (Outcome::Continue, g)
                            },
                        }
                    },
                    TextStep::Hold => {
                        let g: Ghost<Seq<SentEvent>> = Ghost(Seq::empty());
                        (Outcome::Continue, g)
                    },
                }
            },
        }
    }

    /// Append a sampled token to the taken-out sequence `seq`, emit what
    /// the new text allows, and finish the sequence on its EOS token, a
    /// stop string, a vanished requester or an exhausted budget; otherwise
    /// put it back at `idx`.
    fn push_token(&mut self, idx: usize, seq: Sequence<C>, token: u32)
        requires
            old(self).wf_out(&seq),
            idx <= old(self)@.running.len(),
        ensures
            final(self).wf(),
            same_config(old(self)@, final(self)@),
            final(self)@.calls == old(self)@.calls,
            final(self)@.waiting == old(self)@.waiting,
            final(self)@.running == old(self)@.running || exists|s2: SeqModel|
                s2.id == seq.id && s2.generated == seq.model().generated.push(token)
                    && final(self)@.running == old(self)@.running.insert(idx as int, s2),
            (final(self)@.running == old(self)@.running && final(self)@.pool == old(self)@.pool.release(
                seq.id,
            )) || (final(self)@.pool == old(self)@.pool && exists|e: nat|
                final(self)@.running == old(self)@.running.insert(
                    idx as int,
                    #[trigger] with_token(seq.model(), token, e),
                )),
            exists|w: TokenWitness|
                #[trigger] token_step(
                    old(self)@,
                    final(self)@,
                    idx as int,
                    seq.model(),
                    token,
                    old(self).model_max_seq_len() as nat,
                    w,
                ),
    {
        let max_seq_len = self.model.max_seq_len();
        let mut seq = seq;
        let is_eos = match seq.req.eos_token_id {
            Some(e) => e == token,
            None => false,
        };
        let ghost o = self@;
        let ghost before = seq.model();
        let ghost msl = self.model_max_seq_len() as nat;
        assert(max_seq_len as nat == msl);
        reveal(took_token);
        if is_eos {
            self.retire(seq, FinishReason::Stop);
            proof {
                let d = choose|d: Option<Seq<char>>|
                    self@.sent == with_sent(o.sent, before.id, #[trigger] retire_events(d, before, FinishReason::Stop));
                reveal_strlit("stop");
                assert(retire_events(d, before, FinishReason::Stop) =~= seq![
                    final_event(before.prompt_len, before.generated.len(), "stop"@),
                ]);
                let w = TokenWitness {
                    decoded: None,
                    emitted: 0,
                    outcome: Outcome::Continue,
                    evs: Seq::empty(),
                    flushed: None,
                    sent: seq![final_event(before.prompt_len, before.generated.len(), "stop"@)],
                    kept: None,
                };
                assert(token_step(o, self@, idx as int, before, token, msl, w));
            }
            return ;
        }
        seq.generated.push(token);
        seq.tokens.push(token);
        let decoded = seq.req.client.detokenize(seq.generated.as_slice());
        let ghost dv: Option<Seq<char>> = match &decoded {
            Some(t) => Some(t@),
            None => None,
        };
        let (outcome, evs) = Self::emit_text(&mut seq, decoded);
        self.sent = Ghost(with_sent(self.sent@, seq.id, evs@));
        let ghost s1 = with_token(before, token, seq.emitted_len as nat);
        let ghost sent1 = self@.sent;
        proof {
            assert(seq.tokens@.skip(seq.prompt_len as int) =~= before.tokens.skip(
                seq.prompt_len as int,
            ).push(token));
            assert(seq.model() == s1);
        }
        let avail = if max_seq_len > seq.prompt_len {
            max_seq_len - seq.prompt_len
        } else {
            0
        };
        let budget = if seq.req.max_tokens < avail {
            seq.req.max_tokens
        } else {
            avail
        };
        match outcome {
            Outcome::Continue => {
                if seq.generated.len() >= budget {
                    self.retire(seq, FinishReason::Length);
                    proof {
                        let d = choose|d: Option<Seq<char>>|
                            self@.sent == with_sent(sent1, before.id, #[trigger] retire_events(d, s1, FinishReason::Length));
                        lemma_with_sent_twice(o.sent, before.id, evs@, retire_events(d, s1, FinishReason::Length));
                        let w = TokenWitness {
                            decoded: dv,
                            emitted: s1.emitted_len,
                            outcome,
                            evs: evs@,
                            flushed: d,
                            sent: evs@ + retire_events(d, s1, FinishReason::Length),
                            kept: None,
                        };
                        assert(token_step(o, self@, idx as int, before, token, msl, w));
                    }
                } else {
                    let ghost s2 = seq.model();
                    assert(s2 == with_token(before, token, seq.emitted_len as nat));
                    self.put_back(idx, seq);
                    proof {
                        let w = TokenWitness {
                            decoded: dv,
                            emitted: s1.emitted_len,
                            outcome,
                            evs: evs@,
                            flushed: None,
                            sent: evs@,
                            kept: Some(s1),
                        };
                        assert(token_step(o, self@, idx as int, before, token, msl, w));
                    }
                }
            },
            Outcome::Finish(r) => {
                self.retire(seq, r);
                proof {
                    let d = choose|d: Option<Seq<char>>|
                        self@.sent == with_sent(sent1, before.id, #[trigger] retire_events(d, s1, r));
                    lemma_with_sent_twice(o.sent, before.id, evs@, retire_events(d, s1, r));
                    let w = TokenWitness {
                        decoded: dv,
                        emitted: s1.emitted_len,
                        outcome,
                        evs: evs@,
                        flushed: d,
                        sent: evs@ + retire_events(d, s1, r),
                        kept: None,
                    };
                    assert(token_step(o, self@, idx as int, before, token, msl, w));
                }
            },
            Outcome::Gone => {
                self.retire_silently(seq);
                proof {
                    let w = TokenWitness {
                        decoded: dv,
                        emitted: s1.emitted_len,
                        outcome,
                        evs: evs@,
                        flushed: None,
                        sent: evs@,
                        kept: None,
                    };
                    assert(token_step(o, self@, idx as int, before, token, msl, w));
                }
            },
        }
    }

    /// Process one prefill chunk of the oldest sequence still prefilling;
    /// once its whole prompt is in, sample its first token.
    #[verifier::spinoff_prover]
    #[verifier::rlimit(40)]
    fn prefill_one_chunk(&mut self)
        requires
            old(self).wf(),
        ensures
            final(self).wf(),
            same_config(old(self)@, final(self)@),
            final(self)@.waiting == old(self)@.waiting,
            (forall|i: int| 0 <= i < old(self)@.running.len() ==> #[trigger] old(self)@.running[i].phase is Decode)
                ==> final(self)@ == old(self)@,
            forall|i: int| #[trigger]
                first_prefill(old(self)@.running, i) ==> prefill_outcome(old(self)@, final(self)@, i),
    {
        let idx = match self.first_prefilling() {
            Some(i) => i,
            None => {
                return ;
            },
        };
        proof {
            assert(self@.running[idx as int].well_formed());
        }
        let done = match self.running[idx].phase {
            Phase::Prefill { done } => done,
            Phase::Decode => {
                return ;
            },
        };
        let id = self.running[idx].id;
        let plen = self.running[idx].prompt_len;
        let remaining = plen - done;
        let take = if remaining < self.cfg.prefill_chunk {
            remaining
        } else {
            self.cfg.prefill_chunk
        };
        let last_chunk = take == remaining;
        let chunk = copy_tokens(self.running[idx].tokens.as_slice(), done, done + take);
        let ghost o = self@;
        let ghost s = o.running[idx as int];
        proof {
            assert forall|i: int| #[trigger] first_prefill(o.running, i) implies i == idx by {
                if i < idx {
                    assert(o.running[i].phase is Decode);
                } else if i > idx {
                    assert(o.running[idx as int].phase is Decode);
                }
            }
        }
        let res = self.model.prefill(id, chunk.as_slice(), done, last_chunk);
        let ghost answer = match &res {
            Ok(Some(_)) => PrefillAnswer::Logits,
            Ok(None) => PrefillAnswer::Pending,
            Err(_) => PrefillAnswer::Failed,
        };
        proof {
            assert(done as nat == prefill_done(s));
            assert(chunk@ == s.tokens.subrange(done as int, chunk_done(s, o.prefill_chunk) as int));
        }
        self.calls = Ghost(
            self.calls@.push(
                RuntimeCall::Prefill { seq: id, tokens: chunk@, start: done as nat, want_logits: last_chunk, answer },
            ),
        );
        let ghost o2 = self@;
        match res {
            Ok(Some(logits)) => {
                let mut seq = self.take_out(idx);
                let ghost cur2 = self@;
                seq.phase = Phase::Decode;
                let next = seq.req.client.sample(logits, seq.tokens.as_slice());
                let ghost sm = seq.model();
                assert(sm == SeqModel { phase: Phase::Decode, ..s });
                self.push_token(idx, seq, next);
                proof {
                    let w = choose|w: TokenWitness|
                        #[trigger] token_step(cur2, self@, idx as int, sm, next, cur2.max_seq, w);
                    assert(token_step(cur2, self@, idx as int, sm, next, cur2.max_seq, w));
                    match w.kept {
                        Some(s1) => {
                            assert(self@.running =~= o.running.update(idx as int, s1));
                        },
                        None => {
                            assert(self@.running =~= o.running.remove(idx as int));
                        },
                    }
                    assert(took_token(sm, next, o.max_seq, w));
                    assert(prefill_outcome(o, self@, idx as int));
                }
            },
            Ok(None) => {
                let mut seq = self.take_out(idx);
                seq.phase = Phase::Prefill { done: done + take };
                let ghost sm = seq.model();
                self.put_back(idx, seq);
                proof {
                    assert(sm == SeqModel {
                        phase: Phase::Prefill { done: chunk_done(s, o.prefill_chunk) as usize },
                        ..s
                    });
                    assert(self@.running =~= o.running.update(idx as int, sm));
                    assert(prefill_outcome(o, self@, idx as int));
                }
            },
            Err(_) => {
                self.finish(idx, FinishReason::Error);
                proof {
                    let d = choose|d: Option<Seq<char>>|
                        self@.sent == with_sent(o2.sent, s.id, #[trigger] retire_events(d, s, FinishReason::Error));
                    assert(retire_events(d, s, FinishReason::Error) =~= seq![
                        final_event(s.prompt_len, s.generated.len(), "error"@),
                    ]);
                    assert(prefill_outcome(o, self@, idx as int));
                }
            },
        }
    }

    /// Ids of the decode-phase sequences, in running order, each with the
    /// positions it needs after one more token (and, as a ghost, where it
    /// runs).
    fn decode_candidates(&self) -> (r: (Vec<u64>, Vec<usize>, Ghost<Seq<int>>))
        requires
            self.wf(),
        ensures
            r.0@.len() == r.2@.len(),
            r.1@.len() == r.2@.len(),
            forall|c: int|
                0 <= c < r.2@.len() ==> 0 <= #[trigger] r.2@[c] < self@.running.len()
                    && self@.running[r.2@[c]].id == r.0@[c] && self@.running[r.2@[c]].phase
                    == Phase::Decode && r.1@[c] == self@.running[r.2@[c]].tokens.len() + 1,
            forall|j: int|
                0 <= j < self@.running.len() && (#[trigger] self@.running[j]).phase == Phase::Decode
                    ==> exists|c: int| 0 <= c < r.2@.len() && r.2@[c] == j,
            decode_needs(self@.running).len() == r.0@.len(),
            forall|c: int|
                0 <= c < r.0@.len() ==> #[trigger] decode_needs(self@.running)[c] == (r.0@[c], r.1@[c]),
    {
        let ghost start = self@.running;
        let mut cand_id: Vec<u64> = Vec::new();
        let mut cand_need: Vec<usize> = Vec::new();
        let ghost mut src: Seq<int> = Seq::empty();
        let mut i: usize = 0;
        while i < self.running.len()
            invariant
                self.wf(),
                start == self@.running,
                i <= start.len(),
                cand_id@.len() == src.len(),
                cand_need@.len() == src.len(),
                forall|c: int|
                    0 <= c < src.len() ==> 0 <= #[trigger] src[c] < i && start[src[c]].id
                        == cand_id@[c] && start[src[c]].phase == Phase::Decode && cand_need@[c]
                        == start[src[c]].tokens.len() + 1,
                forall|j: int|
                    0 <= j < i && (#[trigger] start[j]).phase == Phase::Decode ==> exists|c: int|
                        0 <= c < src.len() && src[c] == j,
                decode_needs(start.take(i as int)).len() == cand_id@.len(),
                forall|c: int|
                    0 <= c < cand_id@.len() ==> #[trigger] decode_needs(start.take(i as int))[c] == (
                        cand_id@[c],
                        cand_need@[c],
                    ),
            decreases start.len() - i,
        {
            proof {
                assert(start[i as int].well_formed());
                assert(start.take(i + 1).drop_last() =~= start.take(i as int));
                assert(start.take(i + 1).last() == start[i as int]);
            }
            match self.running[i].phase {
                Phase::Decode => {
                    cand_id.push(self.running[i].id);
                    cand_need.push(self.running[i].tokens.len() + 1);
                    proof {
                        let old_src = src;
                        src = src.push(i as int);
                        assert(src[src.len() - 1] == i);
                        assert forall|j: int|
                            0 <= j < i + 1 && (#[trigger] start[j]).phase == Phase::Decode implies exists|c: int|
                            0 <= c < src.len() && src[c] == j by {
                            if j < i {
                                let c = choose|c: int| 0 <= c < old_src.len() && old_src[c] == j;
                                assert(src[c] == old_src[c]);
                            } else {
                                assert(src[src.len() - 1] == j);
                            }
                        }
                    }
                },
                Phase::Prefill { .. } => {},
            }
            i = i + 1;
        }
        proof {
            assert(start.take(start.len() as int) =~= start);
        }
        (cand_id, cand_need, Ghost(src))
    }

    /// Give every decode-phase sequence room for one more token, in the
    /// order they run, preempting the most recently admitted others when
    /// the pool is full. Afterwards no sequence that would decode lacks
    /// the blocks for its next position.
    #[verifier::spinoff_prover]
    #[verifier::rlimit(60)]
    fn make_room(&mut self)
        requires
            old(self).wf(),
        ensures
            final(self).wf(),
            same_config(old(self)@, final(self)@),
            final(self)@.sent == old(self)@.sent,
            final(self)@.calls == old(self)@.calls,
            final(self)@.running.len() <= old(self)@.running.len(),
            forall|i: int|
                0 <= i < final(self)@.running.len() && (#[trigger] final(self)@.running[i]).phase
                    == Phase::Decode ==> final(self)@.pool.held_by(final(self)@.running[i].id)
                    >= spec_blocks_for((final(self)@.running[i].tokens.len() + 1) as nat),
            requeued_onto(final(self)@.waiting, old(self)@.waiting),
            drawn_from(final(self)@.running, old(self)@.running),
            kept_or_requeued(old(self)@.running, final(self)@.running, final(self)@.waiting),
            preempted_youngest_first(old(self)@.running, final(self)@.running),
            (final(self)@.running, final(self)@.pool) == rooms_made(
                old(self)@.pool,
                old(self)@.running,
                decode_needs(old(self)@.running),
            ),
    {
        let ghost start = self@.running;
        proof {
            lemma_requeued_onto_refl(self@.waiting);
        }
        let (cand_id, cand_need, Ghost(src)) = self.decode_candidates();
        let mut c: usize = 0;
        proof {
            lemma_drawn_from_self(start);
            reveal(kept_or_requeued);
            assert(kept_or_requeued(start, self@.running, self@.waiting));
            reveal(preempted_youngest_first);
            assert(preempted_youngest_first(start, self@.running));
            assert(decode_needs(start).skip(0) =~= decode_needs(start));
        }
        while c < cand_id.len()
            invariant
                self.wf(),
                same_config(old(self)@, self@),
                self@.sent == old(self)@.sent,
                self@.calls == old(self)@.calls,
                kept_or_requeued(start, self@.running, self@.waiting),
                preempted_youngest_first(start, self@.running),
                start == old(self)@.running,
                old(self)@.ids_distinct(),
                self@.running.len() <= start.len(),
                cand_id@.len() == src.len(),
                cand_need@.len() == src.len(),
                c <= src.len(),
                forall|q: int|
                    0 <= q < src.len() ==> 0 <= #[trigger] src[q] < start.len() && start[src[q]].id
                        == cand_id@[q] && start[src[q]].phase == Phase::Decode && cand_need@[q]
                        == start[src[q]].tokens.len() + 1,
                forall|j: int|
                    0 <= j < start.len() && (#[trigger] start[j]).phase == Phase::Decode ==> exists|q: int|
                        0 <= q < src.len() && src[q] == j,
                drawn_from(self@.running, start),
                requeued_onto(self@.waiting, old(self)@.waiting),
                forall|r: int, q: int|
                    #![trigger self@.running[r], cand_id@[q]]
                    0 <= r < self@.running.len() && 0 <= q < c && cand_id@[q] == self@.running[r].id
                        ==> self@.pool.held_by(cand_id@[q]) >= spec_blocks_for(cand_need@[q] as nat),
                decode_needs(start).len() == cand_id@.len(),
                forall|q: int|
                    0 <= q < cand_id@.len() ==> #[trigger] decode_needs(start)[q] == (cand_id@[q], cand_need@[q]),
                rooms_made(self@.pool, self@.running, decode_needs(start).skip(c as int)) == rooms_made(
                    old(self)@.pool,
                    start,
                    decode_needs(start),
                ),
            decreases src.len() - c,
        {
            let id = cand_id[c];
            let need = cand_need[c];
            let ghost before = self@;
            proof {
                let rest = decode_needs(start).skip(c as int);
                assert(rest[0] == (id, need));
                assert(rest.drop_first() =~= decode_needs(start).skip(c + 1));
            }
            match self.position_of(id) {
                Some(_) => {
                    let r = self.ensure_room(id, need);
                    proof {
                        assert forall|jj: int| 0 <= jj < start.len() && #[trigger] start[jj].id == id implies start[jj].phase is Decode by {
                            assert(start[src[c as int]].id == id);
                            if jj != src[c as int] {
                                assert(old(self)@.ids_distinct());
                                if jj < src[c as int] {
                                    assert(start[jj].id != start[src[c as int]].id);
                                } else {
                                    assert(start[src[c as int]].id != start[jj].id);
                                }
                            }
                        }
                        if r {
                            let k = choose|k: int| 0 <= k < self@.running.len() && #[trigger] self@.running[k].id == id;
                            assert(has_id(self@.running, id));
                        }
                        assert forall|a: int, bb: int| 0 <= a < bb < start.len() implies start[a].id != start[bb].id by {
                            assert(old(self)@.ids_distinct());
                        }
                        lemma_preempted_step(start, before.running, self@.running, id);
                        lemma_kept_or_requeued_trans(start, before.running, before.waiting, self@.running, self@.waiting);
                        lemma_requeued_onto_trans(self@.waiting, before.waiting, old(self)@.waiting);
                        assert forall|r: int| 0 <= r < self@.running.len() implies #[trigger] start.contains(
                            self@.running[r],
                        ) by {
                            assert(before.running.contains(self@.running[r]));
                            let r0 = choose|r0: int|
                                0 <= r0 < before.running.len() && before.running[r0]
                                    == self@.running[r];
                            assert(start.contains(before.running[r0]));
                            let j = choose|j: int| 0 <= j < start.len() && start[j] == before.running[r0];
                            assert(start[j] == self@.running[r]);
                        }
                        assert forall|r: int, q: int|
                            #![trigger self@.running[r], cand_id@[q]]
                            0 <= r < self@.running.len() && 0 <= q < c + 1 && cand_id@[q]
                                == self@.running[r].id implies self@.pool.held_by(cand_id@[q])
                            >= spec_blocks_for(cand_need@[q] as nat) by {
                            let k = cand_id@[q];
                            assert(self@.running_has(k));
                            if q < c {
                                assert(before.running.contains(self@.running[r]));
                                let r0 = choose|r0: int|
                                    0 <= r0 < before.running.len() && before.running[r0]
                                        == self@.running[r];
                                assert(before.running[r0].id == k);
                            }
                        }
                    }
                },
                None => {
                    proof {
                        assert forall|r: int, q: int|
                            #![trigger self@.running[r], cand_id@[q]]
                            0 <= r < self@.running.len() && 0 <= q < c + 1 && cand_id@[q]
                                == self@.running[r].id implies self@.pool.held_by(cand_id@[q])
                            >= spec_blocks_for(cand_need@[q] as nat) by {
                            if q == c {
                                assert(self@.running[r].id != id);
                            }
                        }
                    }
                },
            }
            c = c + 1;
        }
        proof {
            assert(decode_needs(start).skip(c as int) =~= Seq::<(u64, usize)>::empty());
            assert forall|i: int|
                0 <= i < self@.running.len() && (#[trigger] self@.running[i]).phase
                    == Phase::Decode implies self@.pool.held_by(self@.running[i].id)
                >= spec_blocks_for((self@.running[i].tokens.len() + 1) as nat) by {
                assert(start.contains(self@.running[i]));
                let j = choose|j: int| 0 <= j < start.len() && start[j] == self@.running[i];
                let q = choose|q: int| 0 <= q < src.len() && src[q] == j;
                assert(start[src[q]] == self@.running[i]);
            }
        }
    }

    /// Hand the runtime one decode batch, recording the call and whether it
    /// succeeded.
    fn run_decode(&mut self, batch: &Vec<(u64, u32)>) -> (res: Result<Vec<M::Logits>, Error>)
        requires
            old(self).wf(),
        ensures
            final(self).wf(),
            final(self)@ == (SchedModel {
                calls: old(self)@.calls.push(RuntimeCall::Decode { batch: batch@, ok: res is Ok }),
                ..old(self)@
            }),
            res matches Ok(v) ==> v@.len() == batch@.len(),
    {
        let res = self.model.decode(batch.as_slice());
        self.calls = Ghost(self.calls@.push(RuntimeCall::Decode { batch: batch@, ok: res is Ok }));
        res
    }

    /// Advance every decode-phase sequence by one token through a single
    /// batched call; a failed call finishes every participant with
    /// "error".
    #[verifier::spinoff_prover]
    #[verifier::rlimit(100)]
    fn decode_running(&mut self)
        requires
            old(self).wf(),
            forall|i: int|
                0 <= i < old(self)@.running.len() && (#[trigger] old(self)@.running[i]).phase
                    == Phase::Decode ==> old(self)@.pool.held_by(old(self)@.running[i].id)
                    >= spec_blocks_for((old(self)@.running[i].tokens.len() + 1) as nat),
        ensures
            final(self).wf(),
            same_config(old(self)@, final(self)@),
            final(self)@.waiting == old(self)@.waiting,
            decode_progress(old(self)@.running, final(self)@.running),
            decode_round(old(self)@, final(self)@),
    {
        proof {
            lemma_requeued_onto_refl(self@.waiting);
        }
        let ghost w1 = self@.waiting;
        let ghost m3 = self@;
        let mut batch_idx: Vec<usize> = Vec::new();
        let mut batch: Vec<(u64, u32)> = Vec::new();
        let mut i: usize = 0;
        while i < self.running.len()
            invariant
                self.wf(),
                same_config(old(self)@, self@),
                requeued_onto(w1, old(self)@.waiting),
                self@.waiting == w1,
                self@ == m3,
                i <= self@.running.len(),
                batch_idx@.len() == batch@.len(),
                forall|q: int| 0 <= q < batch_idx@.len() ==> #[trigger] batch_idx@[q] < i,
                forall|q: int|
                    0 <= q < batch_idx@.len() ==> (#[trigger] m3.running[batch_idx@[q] as int]).phase is Decode,
                forall|a: int, b: int|
                    0 <= a < b < batch_idx@.len() ==> #[trigger] batch_idx@[a] < #[trigger] batch_idx@[b],
                forall|k: int|
                    0 <= k < i && (#[trigger] m3.running[k]).phase is Decode ==> exists|q: int|
                        0 <= q < batch_idx@.len() && batch_idx@[q] == k,
                batch@ == decode_batch(m3.running.take(i as int)),
            decreases self@.running.len() - i,
        {
            proof {
                assert(self@.running[i as int].well_formed());
            }
            let ghost bi0 = batch_idx@;
            proof {
                assert(m3.running.take(i + 1).drop_last() =~= m3.running.take(i as int));
                assert(m3.running.take(i + 1).last() == m3.running[i as int]);
                assert(self@.running[i as int].tokens.len() > 0);
            }
            match self.running[i].phase {
                Phase::Decode => {
                    let n = self.running[i].tokens.len();
                    let last = self.running[i].tokens[n - 1];
                    batch_idx.push(i);
                    batch.push((self.running[i].id, last));
                    proof {
                        assert(batch_idx@[batch_idx@.len() - 1] == i);
                    }
                },
                Phase::Prefill { .. } => {},
            }
            proof {
                assert forall|k: int|
                    0 <= k < i + 1 && (#[trigger] m3.running[k]).phase is Decode implies exists|q: int|
                        0 <= q < batch_idx@.len() && batch_idx@[q] == k by {
                    if k == i {
                        assert(batch_idx@[batch_idx@.len() - 1] == k);
                    } else {
                        let q = choose|q: int| 0 <= q < bi0.len() && bi0[q] == k;
                        assert(batch_idx@[q] == k);
                    }
                }
            }
            i = i + 1;
        }
        proof {
            assert(m3.ids_distinct());
            assert(m3.running.take(m3.running.len() as int) =~= m3.running);
        }
        if batch.len() == 0 {
            proof {
                assert forall|j: int| 0 <= j < m3.running.len() implies advanced(#[trigger] m3.running[j], self@.running) by {
                    if m3.running[j].phase is Decode {
                        let q = choose|q: int| 0 <= q < batch_idx@.len() && batch_idx@[q] == j;
                    } else {
                        assert(self@.running[j] == m3.running[j]);
                    }
                }
                assert(decode_progress(m3.running, self@.running));
                assert(decode_round(m3, self@));
            }
            return ;
        }
        let res = self.run_decode(&batch);
        let ghost ok = res is Ok;
        let ghost m4 = self@;
        proof {
            assert(last_call_ok(m4.calls) == ok);
            assert(m4.running == m3.running && m4.sent == m3.sent);
        }
        match res {
            Err(_) => {
                let mut j = batch_idx.len();
                proof {
                    assert forall|k: int| 0 <= k < m3.running.len() && !(m3.running[k].phase is Decode) implies advanced(#[trigger] m3.running[k], self@.running) by {
                        assert(self@.running[k] == m3.running[k]);
                    }
                }
                while j > 0
                    invariant
                        self.wf(),
                        same_config(old(self)@, self@),
                        requeued_onto(w1, old(self)@.waiting),
                        self@.waiting == w1,
                        m3.ids_distinct(),
                        j <= batch_idx@.len(),
                        forall|q: int| 0 <= q < batch_idx@.len() ==> #[trigger] batch_idx@[q] < m3.running.len(),
                        forall|q: int|
                            0 <= q < batch_idx@.len() ==> (#[trigger] m3.running[batch_idx@[q] as int]).phase is Decode,
                        forall|q: int| 0 <= q < j ==> #[trigger] batch_idx@[q] < self@.running.len(),
                        forall|q: int| 0 <= q < j ==> self@.running[#[trigger] batch_idx@[q] as int] == m3.running[batch_idx@[q] as int],
                        forall|a: int, b: int|
                            0 <= a < b < batch_idx@.len() ==> #[trigger] batch_idx@[a]
                                < #[trigger] batch_idx@[b],
                        forall|q: int| j <= q < batch_idx@.len() ==> advanced(#[trigger] m3.running[batch_idx@[q] as int], self@.running),
                        self@.calls == m4.calls,
                        self@.max_seq == m3.max_seq,
                        last_call_ok(m4.calls) == ok,
                        !ok,
                        forall|q: int| j <= q < batch_idx@.len() ==> decoded_seq(#[trigger] m3.running[batch_idx@[q] as int], m3.sent, self@, ok),
                        forall|q: int|
                            0 <= q < j ==> sent_to(self@.sent, (#[trigger] m3.running[batch_idx@[q] as int]).id) == sent_to(
                                m3.sent,
                                m3.running[batch_idx@[q] as int].id,
                            ),
                        forall|k: int|
                            0 <= k < m3.running.len() && !(m3.running[k].phase is Decode) ==> sent_to(
                                self@.sent,
                                (#[trigger] m3.running[k]).id,
                            ) == sent_to(m3.sent, m3.running[k].id),
                        forall|k: int| 0 <= k < m3.running.len() && !(m3.running[k].phase is Decode) ==> advanced(#[trigger] m3.running[k], self@.running),
                    decreases j,
                {
                    j = j - 1;
                    let ghost cur = self@;
                    let ghost idx = batch_idx@[j as int] as int;
                    self.finish(batch_idx[j], FinishReason::Error);
                    proof {
                        let s0 = cur.running[idx];
                        let d = choose|d: Option<Seq<char>>|
                            self@.sent == with_sent(cur.sent, s0.id, #[trigger] retire_events(d, s0, FinishReason::Error));
                        assert(retire_events(d, s0, FinishReason::Error) =~= seq![
                            final_event(s0.prompt_len, s0.generated.len(), "error"@),
                        ]);
                        assert(!has_id(self@.running, s0.id)) by {
                            if has_id(self@.running, s0.id) {
                                let k = choose|k: int| 0 <= k < self@.running.len() && #[trigger] self@.running[k].id == s0.id;
                                let k0 = if k < idx { k } else { k + 1 };
                                assert(cur.running[k0].id == s0.id);
                            }
                        }
                        assert(decoded_seq(m3.running[batch_idx@[j as int] as int], m3.sent, self@, ok));
                        lemma_decoded_kept(m3, cur, self@, batch_idx@, j as int, retire_events(d, s0, FinishReason::Error), ok);
                        lemma_step_kept(m3, cur.running, self@.running, batch_idx@, j as int);
                        assert forall|q: int| 0 <= q < j implies #[trigger] batch_idx@[q]
                            < self@.running.len() by {
                            assert(batch_idx@[q] < batch_idx@[j as int]);
                        }
                        assert forall|q: int| 0 <= q < j implies self@.running[#[trigger] batch_idx@[q] as int] == m3.running[batch_idx@[q] as int] by {
                            assert(batch_idx@[q] < batch_idx@[j as int]);
                        }
                    }
                }
            },
            Ok(all) => {
                let mut all = all;
                let mut j = all.len();
                proof {
                    assert forall|k: int| 0 <= k < m3.running.len() && !(m3.running[k].phase is Decode) implies advanced(#[trigger] m3.running[k], self@.running) by {
                        assert(self@.running[k] == m3.running[k]);
                    }
                }
                while j > 0
                    invariant
                        self.wf(),
                        same_config(old(self)@, self@),
                        requeued_onto(w1, old(self)@.waiting),
                        self@.waiting == w1,
                        m3.ids_distinct(),
                        all@.len() == j,
                        j <= batch_idx@.len(),
                        forall|q: int| 0 <= q < batch_idx@.len() ==> #[trigger] batch_idx@[q] < m3.running.len(),
                        forall|q: int|
                            0 <= q < batch_idx@.len() ==> (#[trigger] m3.running[batch_idx@[q] as int]).phase is Decode,
                        forall|q: int| 0 <= q < j ==> #[trigger] batch_idx@[q] < self@.running.len(),
                        forall|q: int| 0 <= q < j ==> self@.running[#[trigger] batch_idx@[q] as int] == m3.running[batch_idx@[q] as int],
                        forall|a: int, b: int|
                            0 <= a < b < batch_idx@.len() ==> #[trigger] batch_idx@[a]
                                < #[trigger] batch_idx@[b],
                        forall|q: int| j <= q < batch_idx@.len() ==> advanced(#[trigger] m3.running[batch_idx@[q] as int], self@.running),
                        self@.calls == m4.calls,
                        self@.max_seq == m3.max_seq,
                        last_call_ok(m4.calls) == ok,
                        ok,
                        forall|q: int| j <= q < batch_idx@.len() ==> decoded_seq(#[trigger] m3.running[batch_idx@[q] as int], m3.sent, self@, ok),
                        forall|q: int|
                            0 <= q < j ==> sent_to(self@.sent, (#[trigger] m3.running[batch_idx@[q] as int]).id) == sent_to(
                                m3.sent,
                                m3.running[batch_idx@[q] as int].id,
                            ),
                        forall|k: int|
                            0 <= k < m3.running.len() && !(m3.running[k].phase is Decode) ==> sent_to(
                                self@.sent,
                                (#[trigger] m3.running[k]).id,
                            ) == sent_to(m3.sent, m3.running[k].id),
                        forall|k: int| 0 <= k < m3.running.len() && !(m3.running[k].phase is Decode) ==> advanced(#[trigger] m3.running[k], self@.running),
                    decreases j,
                {
                    j = j - 1;
                    let logits = match all.pop() {
                        Some(l) => l,
                        None => {
                            return ;
                        },
                    };
                    let idx = batch_idx[j];
                    let ghost cur = self@;
                    let mut seq = self.take_out(idx);
                    let ghost cur2 = self@;
                    let ghost s0 = seq.model();
                    let next = seq.req.client.sample(logits, seq.tokens.as_slice());
                    proof {
                        assert(seq.model().decode =~= s0.decode);
                        assert(seq.model() == s0);
                    }
                    self.push_token(idx, seq, next);
                    proof {
                        assert(s0 == cur.running[idx as int]);
                        assert(cur2 == (SchedModel { running: cur.running.remove(idx as int), ..cur }));
                        let w = lemma_token_decoded(cur, self@, idx as int, next, m3.sent);
                        assert(m3.running[batch_idx@[j as int] as int] == s0);
                        lemma_decoded_kept(m3, cur, self@, batch_idx@, j as int, w.sent, ok);
                        lemma_step_kept(m3, cur.running, self@.running, batch_idx@, j as int);
                        assert forall|q: int| 0 <= q < j implies #[trigger] batch_idx@[q]
                            < self@.running.len() by {
                            assert(batch_idx@[q] < batch_idx@[j as int]);
                        }
                        assert forall|q: int| 0 <= q < j implies self@.running[#[trigger] batch_idx@[q] as int] == m3.running[batch_idx@[q] as int] by {
                            assert(batch_idx@[q] < batch_idx@[j as int]);
                        }
                    }
                }
            },
        }
        proof {
            assert forall|k: int| 0 <= k < m3.running.len() implies advanced(#[trigger] m3.running[k], self@.running) by {
                if m3.running[k].phase is Decode {
                    let q = choose|q: int| 0 <= q < batch_idx@.len() && batch_idx@[q] == k;
                    assert(advanced(m3.running[batch_idx@[q] as int], self@.running));
                }
            }
            assert(decode_progress(m3.running, self@.running));
            assert forall|k: int| 0 <= k < m3.running.len() implies if (#[trigger] m3.running[k]).phase is Decode {
                decoded_seq(m3.running[k], m3.sent, self@, last_call_ok(self@.calls))
            } else {
                self@.running.contains(m3.running[k]) && sent_to(self@.sent, m3.running[k].id) == sent_to(
                    m3.sent,
                    m3.running[k].id,
                )
            } by {
                if m3.running[k].phase is Decode {
                    let q = choose|q: int| 0 <= q < batch_idx@.len() && batch_idx@[q] == k;
                    assert(decoded_seq(m3.running[batch_idx@[q] as int], m3.sent, self@, ok));
                } else {
                    assert(advanced(m3.running[k], self@.running));
                }
            }
            assert(decode_round(m3, self@));
        }
    }

    /// Advance every decode-phase sequence by one token through a single
    /// batched call, after making room for each; a failed call finishes
    /// every participant with "error".
    #[verifier::spinoff_prover]
    #[verifier::rlimit(100)]
    fn decode_step(&mut self)
        requires
            old(self).wf(),
        ensures
            final(self).wf(),
            same_config(old(self)@, final(self)@),
            requeued_onto(final(self)@.waiting, old(self)@.waiting),
            exists|m: SchedModel|
                #[trigger] decode_progress(m.running, final(self)@.running) && drawn_from(
                    m.running,
                    old(self)@.running,
                ) && decode_round(m, final(self)@) && m.sent == old(self)@.sent && m.calls == old(
                    self,
                )@.calls && requeued_onto(m.waiting, old(self)@.waiting) && kept_or_requeued(
                    old(self)@.running,
                    m.running,
                    m.waiting,
                ) && preempted_youngest_first(old(self)@.running, m.running) && same_config(old(self)@, m) && (
                    m.running,
                    m.pool,
                ) == rooms_made(old(self)@.pool, old(self)@.running, decode_needs(old(self)@.running)),
    {
        self.make_room();
        let ghost m3 = self@;
        self.decode_running();
        proof {
            assert(kept_or_requeued(old(self)@.running, m3.running, m3.waiting));
            assert(preempted_youngest_first(old(self)@.running, m3.running));
        }
    }

    /// One scheduler iteration: admit, prefill one chunk, decode.
    pub fn step(&mut self)
        requires
            old(self).wf(),
            old(self)@.tick + old(self)@.waiting.len() <= u64::MAX,
        ensures
            final(self).wf(),
            final(self)@.next_id == old(self)@.next_id,
            final(self)@.max_batch == old(self)@.max_batch,
            final(self)@.prefill_chunk == old(self)@.prefill_chunk,
            final(self)@.pool.total == old(self)@.pool.total,
            requeued_onto(
                final(self)@.waiting,
                old(self)@.waiting.skip(
                    admitted(
                        old(self)@.pool,
                        old(self)@.waiting,
                        old(self)@.max_batch - old(self)@.running.len(),
                    ).0 as int,
                ),
            ),
            exists|m1: SchedModel, m2: SchedModel, m3: SchedModel|
                #[trigger] step_stages(old(self)@, m1, m2, m3, final(self)@),
    {
        self.admit_waiting();
        let ghost m1 = self@;
        self.prefill_one_chunk();
        let ghost m2 = self@;
        self.decode_step();
        proof {
            let m3 = choose|m: SchedModel|
                #[trigger] decode_progress(m.running, self@.running) && drawn_from(m.running, m2.running)
                    && decode_round(m, self@) && m.sent == m2.sent && m.calls == m2.calls && requeued_onto(
                    m.waiting,
                    m2.waiting,
                ) && kept_or_requeued(m2.running, m.running, m.waiting) && preempted_youngest_first(
                    m2.running,
                    m.running,
                ) && same_config(m2, m) && (m.running, m.pool) == rooms_made(
                    m2.pool,
                    m2.running,
                    decode_needs(m2.running),
                );
            assert(step_stages(old(self)@, m1, m2, m3, self@));
        }
    }
}

/// A token step on the running sequence at `idx`, taken out and pushed
/// back, is one outcome of [`decoded_seq`] for it.
proof fn lemma_token_decoded(
    cur: SchedModel,
    new: SchedModel,
    idx: int,
    next: u32,
    before: Map<u64, Seq<SentEvent>>,
) -> (w: TokenWitness)
    requires
        cur.ids_distinct(),
        0 <= idx < cur.running.len(),
        new.max_seq == cur.max_seq,
        sent_to(cur.sent, cur.running[idx].id) == sent_to(before, cur.running[idx].id),
        exists|w: TokenWitness|
            #[trigger] token_step(
                (SchedModel { running: cur.running.remove(idx), ..cur }),
                new,
                idx,
                cur.running[idx],
                next,
                cur.max_seq,
                w,
            ),
    ensures
        token_step((SchedModel { running: cur.running.remove(idx), ..cur }), new, idx, cur.running[idx], next, cur.max_seq, w),
        decoded_seq(cur.running[idx], before, new, true),
        sent_to(new.sent, cur.running[idx].id) == sent_to(before, cur.running[idx].id) + w.sent,
{
    let cur2 = SchedModel { running: cur.running.remove(idx), ..cur };
    let s0 = cur.running[idx];
    let w = choose|w: TokenWitness| #[trigger] token_step(cur2, new, idx, s0, next, cur.max_seq, w);
    match w.kept {
        Some(s1) => {
            assert(new.running[idx] == s1);
        },
        None => {
            assert(!has_id(new.running, s0.id)) by {
                if has_id(new.running, s0.id) {
                    let k = choose|k: int| 0 <= k < new.running.len() && #[trigger] new.running[k].id == s0.id;
                    let k0 = if k < idx { k } else { k + 1 };
                    assert(cur.running[k0].id == s0.id);
                }
            }
        },
    }
    assert(took_token(s0, next, new.max_seq, w));
    assert(sent_to(new.sent, s0.id) == sent_to(before, s0.id) + w.sent);
    assert(match w.kept {
        Some(s1) => new.running.contains(s1),
        None => !has_id(new.running, s0.id),
    });
    w
}

/// One decode-round edit at `batch[j]` keeps every sequence's standing:
/// the edited one finished or got its token, and the others are as they
/// were.
proof fn lemma_step_kept(m3: SchedModel, cur: Seq<SeqModel>, new: Seq<SeqModel>, batch: Seq<usize>, j: int)
    requires
        m3.ids_distinct(),
        forall|a: int, b: int| 0 <= a < b < cur.len() ==> cur[a].id != cur[b].id,
        0 <= j < batch.len(),
        forall|q: int| 0 <= q < batch.len() ==> #[trigger] batch[q] < m3.running.len(),
        forall|q: int| 0 <= q < batch.len() ==> (#[trigger] m3.running[batch[q] as int]).phase is Decode,
        forall|a: int, b: int| 0 <= a < b < batch.len() ==> #[trigger] batch[a] < #[trigger] batch[b],
        batch[j] < cur.len(),
        cur[batch[j] as int] == m3.running[batch[j] as int],
        new == cur.remove(batch[j] as int) || exists|t: u32, e: nat|
            new == cur.remove(batch[j] as int).insert(batch[j] as int, #[trigger] with_token(cur[batch[j] as int], t, e)),
        forall|q: int| j < q < batch.len() ==> advanced(#[trigger] m3.running[batch[q] as int], cur),
        forall|k: int|
            0 <= k < m3.running.len() && !(m3.running[k].phase is Decode) ==> advanced(#[trigger] m3.running[k], cur),
    ensures
        forall|q: int| j <= q < batch.len() ==> advanced(#[trigger] m3.running[batch[q] as int], new),
        forall|k: int|
            0 <= k < m3.running.len() && !(m3.running[k].phase is Decode) ==> advanced(#[trigger] m3.running[k], new),
{
    let idx = batch[j] as int;
    let s = cur[idx];
    let r = cur.remove(idx);
    let kept = new != r;
    if kept {
        let (t, e) = choose|t: u32, e: nat| new == r.insert(idx, #[trigger] with_token(s, t, e));
        assert(new[idx] == with_token(s, t, e));
        assert(new.contains(with_token(s, t, e)));
        assert(advanced(s, new));
    } else {
        assert(!has_id(new, s.id)) by {
            if has_id(new, s.id) {
                let k = choose|k: int| 0 <= k < new.len() && #[trigger] new[k].id == s.id;
                let k0 = if k < idx { k } else { k + 1 };
                assert(cur[k0].id == s.id);
            }
        }
    }
    let edited = new == r || exists|y: SeqModel| y.id == cur[idx].id && new == r.insert(idx, y);
    if kept {
        let (t, e) = choose|t: u32, e: nat| new == r.insert(idx, #[trigger] with_token(s, t, e));
        assert(with_token(s, t, e).id == cur[idx].id);
    }
    assert(edited);
    assert forall|q: int| j <= q < batch.len() implies advanced(#[trigger] m3.running[batch[q] as int], new) by {
        if q > j {
            assert(batch[j] < batch[q]);
            lemma_advanced_kept(cur, new, idx, m3.running[batch[q] as int]);
        }
    }
    assert forall|k: int|
        0 <= k < m3.running.len() && !(m3.running[k].phase is Decode) implies advanced(#[trigger] m3.running[k], new) by {
        assert(k != idx);
        lemma_advanced_kept(cur, new, idx, m3.running[k]);
    }
}

/// A decode-round edit at `batch[j]` (sending `x` to that sequence) keeps
/// the standing of every sequence already handled, and the events of
/// every other sequence.
proof fn lemma_decoded_kept(
    m3: SchedModel,
    cur: SchedModel,
    new: SchedModel,
    batch: Seq<usize>,
    j: int,
    x: Seq<SentEvent>,
    ok: bool,
)
    requires
        m3.ids_distinct(),
        0 <= j < batch.len(),
        forall|q: int| 0 <= q < batch.len() ==> #[trigger] batch[q] < m3.running.len(),
        forall|q: int| 0 <= q < batch.len() ==> (#[trigger] m3.running[batch[q] as int]).phase is Decode,
        forall|a: int, b: int| 0 <= a < b < batch.len() ==> #[trigger] batch[a] < #[trigger] batch[b],
        batch[j] < cur.running.len(),
        cur.running[batch[j] as int] == m3.running[batch[j] as int],
        new.running == cur.running.remove(batch[j] as int) || exists|y: SeqModel|
            y.id == cur.running[batch[j] as int].id && new.running == cur.running.remove(batch[j] as int).insert(
                batch[j] as int,
                y,
            ),
        new.sent == with_sent(cur.sent, cur.running[batch[j] as int].id, x),
        new.max_seq == cur.max_seq,
        forall|q: int| j < q < batch.len() ==> decoded_seq(#[trigger] m3.running[batch[q] as int], m3.sent, cur, ok),
        forall|q: int|
            0 <= q <= j ==> sent_to(cur.sent, (#[trigger] m3.running[batch[q] as int]).id) == sent_to(
                m3.sent,
                m3.running[batch[q] as int].id,
            ),
        forall|k: int|
            0 <= k < m3.running.len() && !(m3.running[k].phase is Decode) ==> sent_to(
                cur.sent,
                (#[trigger] m3.running[k]).id,
            ) == sent_to(m3.sent, m3.running[k].id),
    ensures
        forall|q: int| j < q < batch.len() ==> decoded_seq(#[trigger] m3.running[batch[q] as int], m3.sent, new, ok),
        forall|q: int|
            0 <= q < j ==> sent_to(new.sent, (#[trigger] m3.running[batch[q] as int]).id) == sent_to(
                m3.sent,
                m3.running[batch[q] as int].id,
            ),
        forall|k: int|
            0 <= k < m3.running.len() && !(m3.running[k].phase is Decode) ==> sent_to(
                new.sent,
                (#[trigger] m3.running[k]).id,
            ) == sent_to(m3.sent, m3.running[k].id),
{
    let idx = batch[j] as int;
    let id0 = cur.running[idx].id;
    lemma_edit_keeps_others(cur.running, new.running, idx);
    assert forall|q: int| j < q < batch.len() implies decoded_seq(#[trigger] m3.running[batch[q] as int], m3.sent, new, ok) by {
        let sq = m3.running[batch[q] as int];
        assert(batch[j] < batch[q]);
        assert(sq.id != id0);
        assert(sent_to(new.sent, sq.id) == sent_to(cur.sent, sq.id));
        if ok {
            let (t, w) = choose|t: u32, w: TokenWitness|
                #[trigger] took_token(sq, t, cur.max_seq, w) && sent_to(cur.sent, sq.id) == sent_to(m3.sent, sq.id) + w.sent
                    && match w.kept {
                    Some(s1) => cur.running.contains(s1),
                    None => !has_id(cur.running, sq.id),
                };
            match w.kept {
                Some(s1) => {
                    assert(took_token(sq, t, cur.max_seq, w));
                    reveal(took_token);
                    if sq.eos_token_id == Some(t) {
                    } else {
                        assert(s1.id == sq.id);
                    }
                    assert(new.running.contains(s1));
                },
                None => {},
            }
            assert(took_token(sq, t, new.max_seq, w));
        }
    }
    assert forall|q: int| 0 <= q < j implies sent_to(new.sent, (#[trigger] m3.running[batch[q] as int]).id) == sent_to(
        m3.sent,
        m3.running[batch[q] as int].id,
    ) by {
        assert(batch[q] < batch[j]);
    }
    assert forall|k: int|
        0 <= k < m3.running.len() && !(m3.running[k].phase is Decode) implies sent_to(
            new.sent,
            (#[trigger] m3.running[k]).id,
        ) == sent_to(m3.sent, m3.running[k].id) by {
        assert(k != idx);
    }
}

/// Editing the running set at `idx` (taking out the sequence there and
/// maybe putting back one with the same id) keeps every sequence with
/// another id where it was, and brings in no other id.
proof fn lemma_edit_keeps_others(cur: Seq<SeqModel>, new: Seq<SeqModel>, idx: int)
    requires
        0 <= idx < cur.len(),
        new == cur.remove(idx) || exists|y: SeqModel| y.id == cur[idx].id && new == cur.remove(idx).insert(idx, y),
    ensures
        forall|x: SeqModel| x.id != cur[idx].id && cur.contains(x) ==> new.contains(x),
        forall|id: u64| id != cur[idx].id && !has_id(cur, id) ==> !has_id(new, id),
{
    let r = cur.remove(idx);
    assert forall|x: SeqModel| x.id != cur[idx].id && cur.contains(x) implies new.contains(x) by {
        let k = choose|k: int| 0 <= k < cur.len() && cur[k] == x;
        assert(k != idx);
        let k2 = if k < idx { k } else { k - 1 };
        assert(r[k2] == x);
        if new != r {
            let y = choose|y: SeqModel| y.id == cur[idx].id && new == r.insert(idx, y);
            let k3 = if k2 < idx { k2 } else { k2 + 1 };
            assert(new[k3] == x);
        } else {
            assert(new[k2] == x);
        }
    }
    assert forall|id: u64| id != cur[idx].id && !has_id(cur, id) implies !has_id(new, id) by {
        if has_id(new, id) {
            let k = choose|k: int| 0 <= k < new.len() && #[trigger] new[k].id == id;
            if new == r {
                let k0 = if k < idx { k } else { k + 1 };
                assert(cur[k0].id == id);
            } else {
                let y = choose|y: SeqModel| y.id == cur[idx].id && new == r.insert(idx, y);
                if k != idx {
                    let k2 = if k < idx { k } else { k - 1 };
                    let k0 = if k2 < idx { k2 } else { k2 + 1 };
                    assert(cur[k0].id == id);
                }
            }
        }
    }
}

/// Editing the running set at `idx` (taking out the sequence there and
/// maybe putting back one with the same id) leaves every other
/// sequence's standing as it was.
proof fn lemma_advanced_kept(cur: Seq<SeqModel>, new: Seq<SeqModel>, idx: int, s: SeqModel)
    requires
        0 <= idx < cur.len(),
        s.id != cur[idx].id,
        new == cur.remove(idx) || exists|y: SeqModel| y.id == cur[idx].id && new == cur.remove(idx).insert(idx, y),
        advanced(s, cur),
    ensures
        advanced(s, new),
{
    let r = cur.remove(idx);
    assert forall|x: SeqModel| x.id != cur[idx].id && cur.contains(x) implies new.contains(x) by {
        let k = choose|k: int| 0 <= k < cur.len() && cur[k] == x;
        assert(k != idx);
        let k2 = if k < idx { k } else { k - 1 };
        assert(r[k2] == x);
        if new != r {
            let y = choose|y: SeqModel| y.id == cur[idx].id && new == r.insert(idx, y);
            let k3 = if k2 < idx { k2 } else { k2 + 1 };
            assert(new[k3] == x);
        } else {
            assert(new[k2] == x);
        }
    }
    if s.phase is Decode {
        if !has_id(cur, s.id) {
            if has_id(new, s.id) {
                let k = choose|k: int| 0 <= k < new.len() && #[trigger] new[k].id == s.id;
                if new == r {
                    let k0 = if k < idx { k } else { k + 1 };
                    assert(cur[k0].id == s.id);
                } else {
                    let y = choose|y: SeqModel| y.id == cur[idx].id && new == r.insert(idx, y);
                    if k != idx {
                        let k2 = if k < idx { k } else { k - 1 };
                        let k0 = if k2 < idx { k2 } else { k2 + 1 };
                        assert(cur[k0].id == s.id);
                    }
                }
            }
        } else {
            let (t, e) = choose|t: u32, e: nat| cur.contains(#[trigger] with_token(s, t, e));
            assert(new.contains(with_token(s, t, e)));
        }
    } else {
        assert(new.contains(s));
    }
}

/// Whatever the runtime and the requesters do, every scheduler state its
/// operations produce keeps: at most `max_batch` sequences running; each
/// id used once, queued or running; every sequence its prompt followed by
/// what it generated; every running sequence holding the blocks it was
/// admitted with (its whole prompt plus one position); and a pool whose
/// accounting is exact and which holds blocks for running sequences only.
pub proof fn law_scheduler_invariant<M: BatchModel, C: Client<M::Logits>>(s: &Scheduler<M, C>)
    requires
        s.wf(),
    ensures
        s@.well_formed(),
        s@.running.len() <= s@.max_batch,
        s@.pool.used <= s@.pool.total,
        forall|i: int|
            0 <= i < s@.running.len() ==> s@.pool.held_by((#[trigger] s@.running[i]).id)
                >= spec_blocks_for(s@.running[i].prompt_len + 1),
{
}

/// One admission round takes a prefix of the queue no longer than the
/// batch room.
pub proof fn law_admission_takes_a_prefix(pool: PoolModel, waiting: Seq<SeqModel>, room: int)
    ensures
        admitted(pool, waiting, room).0 <= waiting.len(),
        room >= 0 ==> admitted(pool, waiting, room).0 <= room,
    decreases waiting.len(),
{
    if room > 0 && waiting.len() > 0 {
        let (p2, ok) = pool.reserve(waiting[0].id, (waiting[0].prompt_len + 1) as usize);
        if ok {
            law_admission_takes_a_prefix(p2, waiting.drop_first(), room - 1);
        }
    }
}

/// Every sequence of `cur` is, unchanged, one of `from`.
pub open spec fn drawn_from(cur: Seq<SeqModel>, from: Seq<SeqModel>) -> bool {
    forall|r: int| 0 <= r < cur.len() ==> #[trigger] from.contains(cur[r])
}

proof fn lemma_drawn_from_self(s: Seq<SeqModel>)
    ensures
        drawn_from(s, s),
{
    assert forall|r: int| 0 <= r < s.len() implies #[trigger] s.contains(s[r]) by {
        let x = s[r];
        assert(s[r] == x);
    }
}

/// Configuration, id counter, tick and pool budget are the same.
pub open spec fn same_config(a: SchedModel, b: SchedModel) -> bool {
    &&& a.max_batch == b.max_batch
    &&& a.prefill_chunk == b.prefill_chunk
    &&& a.next_id == b.next_id
    &&& a.tick == b.tick
    &&& a.pool.total == b.pool.total
    &&& a.max_seq == b.max_seq
}

/// `new` is `old` behind zero or more sequences sent back to restart
/// their prefill.
pub open spec fn requeued_onto(new: Seq<SeqModel>, old: Seq<SeqModel>) -> bool {
    &&& new.len() >= old.len()
    &&& new.skip(new.len() - old.len()) == old
    &&& forall|i: int| 0 <= i < new.len() - old.len() ==> (#[trigger] new[i]).phase == (Phase::Prefill { done: 0 })
}

proof fn lemma_requeued_onto_refl(w: Seq<SeqModel>)
    ensures
        requeued_onto(w, w),
{
    assert(w.skip(0) =~= w);
}

proof fn lemma_requeued_onto_trans(a: Seq<SeqModel>, b: Seq<SeqModel>, c: Seq<SeqModel>)
    requires
        requeued_onto(a, b),
        requeued_onto(b, c),
    ensures
        requeued_onto(a, c),
{
    let da = a.len() - b.len();
    let db = b.len() - c.len();
    assert(a.skip(a.len() - c.len()) =~= b.skip(b.len() - c.len())) by {
        assert forall|i: int| 0 <= i < c.len() implies #[trigger] a.skip(a.len() - c.len())[i] == b.skip(b.len() - c.len())[i] by {
            assert(a.skip(da)[db + i] == b[db + i]);
        }
    }
    assert forall|i: int| 0 <= i < a.len() - c.len() implies (#[trigger] a[i]).phase == (Phase::Prefill { done: 0 }) by {
        if i >= da {
            assert(a.skip(da)[i - da] == b[i - da]);
            assert(b[i - da].phase == (Phase::Prefill { done: 0 }));
        }
    }
}

proof fn lemma_requeued_onto_push_front(x: SeqModel, w: Seq<SeqModel>, base: Seq<SeqModel>)
    requires
        requeued_onto(w, base),
        x.phase == (Phase::Prefill { done: 0 }),
    ensures
        requeued_onto(seq![x] + w, base),
{
    let n = seq![x] + w;
    assert(n.skip(n.len() - base.len()) =~= w.skip(w.len() - base.len()));
    assert forall|i: int| 0 <= i < n.len() - base.len() implies (#[trigger] n[i]).phase == (Phase::Prefill { done: 0 }) by {
        if i > 0 {
            assert(n[i] == w[i - 1]);
        }
    }
}

/// `running[i]` is not `id`, and no other sequence was admitted later;
/// among equally recent ones it is the last.
pub open spec fn is_youngest_other(running: Seq<SeqModel>, id: u64, i: int) -> bool {
    &&& 0 <= i < running.len()
    &&& running[i].id != id
    &&& forall|j: int|
        0 <= j < running.len() && #[trigger] running[j].id != id ==> running[j].admitted_at
            <= running[i].admitted_at
    &&& forall|j: int|
        i < j < running.len() && #[trigger] running[j].id != id ==> running[j].admitted_at
            < running[i].admitted_at
}

/// The youngest other running sequence is one position.
proof fn lemma_youngest_other_unique(running: Seq<SeqModel>, id: u64, i: int, j: int)
    requires
        is_youngest_other(running, id, i),
        is_youngest_other(running, id, j),
    ensures
        i == j,
{
    if i < j {
        assert(running[j].admitted_at < running[i].admitted_at);
        assert(running[i].admitted_at <= running[j].admitted_at);
    } else if j < i {
        assert(running[i].admitted_at < running[j].admitted_at);
        assert(running[j].admitted_at <= running[i].admitted_at);
    }
}

/// What making room for `need` positions of running sequence `id` leaves:
/// the running set, the pool, and whether `id` got its room. The pool
/// reserves when it can; when it cannot, the youngest other running
/// sequence ([`is_youngest_other`]) is preempted and the pool asked again;
/// with no other one left, `id` itself is preempted and gets no room.
pub open spec fn room_made(pool: PoolModel, run: Seq<SeqModel>, id: u64, need: usize) -> (Seq<SeqModel>, PoolModel, bool)
    decreases run.len(),
{
    if pool.reserve(id, need).1 {
        (run, pool.reserve(id, need).0, true)
    } else if exists|i: int| is_youngest_other(run, id, i) {
        let i = choose|i: int| is_youngest_other(run, id, i);
        room_made(pool.release(run[i].id), run.remove(i), id, need)
    } else {
        (Seq::empty(), pool.release(id), false)
    }
}

/// Each decode-phase sequence of `run`, in order, with the positions it
/// needs after one more token.
pub open spec fn decode_needs(run: Seq<SeqModel>) -> Seq<(u64, usize)>
    decreases run.len(),
{
    if run.len() == 0 {
        Seq::empty()
    } else {
        let rest = decode_needs(run.drop_last());
        if run.last().phase is Decode {
            rest.push((run.last().id, (run.last().tokens.len() + 1) as usize))
        } else {
            rest
        }
    }
}

/// Making room, in turn, for each of `needs` that still runs (see
/// [`room_made`]): the running set and the pool it leaves.
pub open spec fn rooms_made(pool: PoolModel, run: Seq<SeqModel>, needs: Seq<(u64, usize)>) -> (Seq<SeqModel>, PoolModel)
    decreases needs.len(),
{
    if needs.len() == 0 {
        (run, pool)
    } else if has_id(run, needs[0].0) {
        let m = room_made(pool, run, needs[0].0, needs[0].1);
        rooms_made(m.1, m.0, needs.drop_first())
    } else {
        rooms_made(pool, run, needs.drop_first())
    }
}

/// When a stop string is hit, what reaches the requester is exactly the
/// decoded text up to the hit, and it holds no stop string. Here `before`
/// is what was sent so far, the decoded text's first `emitted` bytes (as
/// every earlier emission leaves it when decoding a longer token run
/// extends the earlier text); the delta sent on the hit is the one
/// emission sends ([`emit_text`]): the bytes from `emitted` to the hit.
pub proof fn law_stop_output_is_text_before_hit(
    text: Seq<char>,
    stops: Seq<Seq<char>>,
    emitted: nat,
    before: Seq<char>,
    hit: usize,
)
    requires
        encode_utf8(text).len() <= usize::MAX,
        spec_text_step(text, stops, emitted) == (TextStep::Stop { hit }),
        forall|j: int| 0 <= j < stops.len() ==> (#[trigger] stops[j]).len() > 0,
        emitted <= hit,
        is_char_boundary(encode_utf8(text), emitted as int),
        encode_utf8(before) == encode_utf8(text).take(emitted as int),
    ensures
        slice_ok(encode_utf8(text), emitted as int, hit as int),
        emitted < hit ==> encode_utf8(before + decode_utf8(encode_utf8(text).subrange(emitted as int, hit as int)))
            == encode_utf8(text).take(hit as int),
        emitted < hit ==> forall|j: int, p: int|
            0 <= j < stops.len() ==> !#[trigger] occurs_at(
                encode_utf8(before + decode_utf8(encode_utf8(text).subrange(emitted as int, hit as int))),
                encode_utf8(stops[j]),
                p,
            ),
        emitted == hit ==> encode_utf8(before) == encode_utf8(text).take(hit as int),
        emitted == hit ==> forall|j: int, p: int|
            0 <= j < stops.len() ==> !#[trigger] occurs_at(encode_utf8(before), encode_utf8(stops[j]), p),
{
    let b = encode_utf8(text);
    vstd::utf8::encode_utf8_valid_utf8(text);
    crate::stop::law_stop_hit_is_earliest(text, stops, emitted, hit);
    let j0 = choose|j: int| 0 <= j < stops.len() && occurs_at(b, encode_utf8(#[trigger] stops[j]), hit as int);
    let sb = encode_utf8(stops[j0]);
    lemma_encode_empty_iff(stops[j0]);
    vstd::utf8::encode_utf8_valid_utf8(stops[j0]);
    // The stop string starts with a leading byte, so the hit is a boundary.
    vstd::utf8::is_char_boundary_start_end_of_seq(sb);
    vstd::utf8::is_char_boundary_iff_not_is_continuation_byte(sb, 0);
    assert(b.subrange(hit as int, hit + sb.len()) == sb);
    assert(b[hit as int] == sb[0]);
    vstd::utf8::is_char_boundary_iff_not_is_continuation_byte(b, hit as int);
    assert(is_char_boundary(b, hit as int));
    let out = if emitted < hit {
        before + decode_utf8(b.subrange(emitted as int, hit as int))
    } else {
        before
    };
    lemma_boundary_range(b, emitted as int);
    lemma_boundary_range(b, hit as int);
    if emitted < hit {
        let sub = b.subrange(emitted as int, hit as int);
        vstd::utf8::valid_utf8_split(b, emitted as int);
        let tail = b.subrange(emitted as int, b.len() as int);
        lemma_boundary_suffix(b, emitted as int, (hit - emitted) as int);
        vstd::utf8::valid_utf8_split(tail, (hit - emitted) as int);
        assert(tail.subrange(0, (hit - emitted) as int) =~= sub);
        vstd::utf8::decode_utf8_encode_utf8(sub);
        crate::stop::lemma_encode_utf8_concat(before, decode_utf8(sub));
        assert(b.take(emitted as int) + sub =~= b.take(hit as int));
    } else {
        assert(b.take(emitted as int) =~= b.take(hit as int));
    }
    let ob = encode_utf8(out);
    assert(ob == b.take(hit as int));
    assert forall|j: int, p: int| 0 <= j < stops.len() implies !#[trigger] occurs_at(ob, encode_utf8(stops[j]), p) by {
        if occurs_at(ob, encode_utf8(stops[j]), p) {
            let sj = encode_utf8(stops[j]);
            lemma_encode_empty_iff(stops[j]);
            assert(ob.subrange(p, p + sj.len()) =~= b.subrange(p, p + sj.len()));
            assert(occurs_at(b, sj, p));
        }
    }
}

/// Text released while no stop string is hit reaches the requester as
/// the decoded text up to the released offset, and it holds no stop
/// string. Here `before` is what was sent so far, the decoded text's first
/// `emitted` bytes; the delta sent is the one emission sends
/// ([`emit_text`]) when both offsets are character boundaries.
pub proof fn law_released_output_is_stop_free(
    text: Seq<char>,
    stops: Seq<Seq<char>>,
    emitted: nat,
    before: Seq<char>,
    upto: usize,
)
    requires
        encode_utf8(text).len() <= usize::MAX,
        spec_text_step(text, stops, emitted) == (TextStep::Emit { upto }),
        slice_ok(encode_utf8(text), emitted as int, upto as int),
        encode_utf8(before) == encode_utf8(text).take(emitted as int),
    ensures
        ({
            let b = encode_utf8(text);
            let out = before + decode_utf8(b.subrange(emitted as int, upto as int));
            &&& encode_utf8(out) == b.take(upto as int)
            &&& forall|j: int, p: int|
                0 <= j < stops.len() ==> !#[trigger] occurs_at(encode_utf8(out), encode_utf8(stops[j]), p)
        }),
{
    let b = encode_utf8(text);
    vstd::utf8::encode_utf8_valid_utf8(text);
    crate::stop::law_emitted_text_is_stop_free(text, stops, emitted, upto);
    lemma_boundary_range(b, emitted as int);
    lemma_boundary_range(b, upto as int);
    let sub = b.subrange(emitted as int, upto as int);
    vstd::utf8::valid_utf8_split(b, emitted as int);
    let tail = b.subrange(emitted as int, b.len() as int);
    lemma_boundary_suffix(b, emitted as int, (upto - emitted) as int);
    vstd::utf8::valid_utf8_split(tail, (upto - emitted) as int);
    assert(tail.subrange(0, (upto - emitted) as int) =~= sub);
    vstd::utf8::decode_utf8_encode_utf8(sub);
    crate::stop::lemma_encode_utf8_concat(before, decode_utf8(sub));
    assert(b.take(emitted as int) + sub =~= b.take(upto as int));
    let out = before + decode_utf8(sub);
    let ob = encode_utf8(out);
    assert(ob == b.take(upto as int));
    assert forall|j: int, p: int| 0 <= j < stops.len() implies !#[trigger] occurs_at(ob, encode_utf8(stops[j]), p) by {
        if occurs_at(ob, encode_utf8(stops[j]), p) {
            let sj = encode_utf8(stops[j]);
            assert(ob.subrange(p, p + sj.len()) =~= b.subrange(p, p + sj.len()));
            assert(occurs_at(b, sj, p));
        }
    }
}

/// What one emission does with decoded `text`, having emitted `emitted`
/// bytes: the bytes emitted after, the text sent, and whether a stop
/// string finished the sequence (the text that [`emit_outcome`] sends).
pub open spec fn emit_delta(text: Seq<char>, stops: Seq<Seq<char>>, emitted: nat) -> (nat, Seq<char>, bool) {
    let b = encode_utf8(text);
    match spec_text_step(text, stops, emitted) {
        TextStep::Stop { hit } => if emitted < hit && slice_ok(b, emitted as int, hit as int) {
            (hit as nat, decode_utf8(b.subrange(emitted as int, hit as int)), true)
        } else {
            (emitted, Seq::empty(), true)
        },
        TextStep::Emit { upto } => if slice_ok(b, emitted as int, upto as int) {
            (upto as nat, decode_utf8(b.subrange(emitted as int, upto as int)), false)
        } else {
            (emitted, Seq::empty(), false)
        },
        TextStep::Hold => (emitted, Seq::empty(), false),
    }
}

/// The text a run of events carries, every delta joined.
pub open spec fn sent_text(evs: Seq<SentEvent>) -> Seq<char>
    decreases evs.len(),
{
    if evs.len() == 0 {
        Seq::empty()
    } else {
        sent_text(evs.drop_last()) + evs.last().delta
    }
}

/// Taking a token other than the end token is one step of the stream
/// ([`emit_delta`]) on the text the tokens now decode to: the bytes
/// emitted move to that step's offset and the text sent before any
/// length flush is its delta. A stop string hit, and nothing else,
/// finishes the sequence with `stop`: it is then sent that delta and the
/// final event, and nothing more.
pub proof fn law_token_is_stream_step(s: SeqModel, token: u32, max_seq: nat, w: TokenWitness)
    requires
        took_token(s, token, max_seq, w),
        s.eos_token_id != Some(token),
        (s.decode)(s.generated.push(token)) is Some,
    ensures
        ({
            let (e, d, stopped) = emit_delta((s.decode)(s.generated.push(token))->0, s.stop, s.emitted_len);
            &&& w.emitted == e
            &&& sent_text(w.evs) == d
            &&& stopped <==> w.outcome == Outcome::Finish(FinishReason::Stop)
            &&& stopped ==> w.kept is None && sent_text(w.sent) == d && w.sent == w.evs.push(
                final_event(s.prompt_len, s.generated.len() + 1, FinishReason::Stop.label()),
            )
            &&& w.kept matches Some(s1) ==> s1 == with_token(s, token, e)
        }),
{
    reveal(took_token);
    let text = (s.decode)(s.generated.push(token))->0;
    let evs = w.evs;
    assert(sent_text(Seq::<SentEvent>::empty()) == Seq::<char>::empty());
    if evs.len() == 1 {
        assert(evs.drop_last() =~= Seq::<SentEvent>::empty());
        assert(sent_text(evs) =~= evs[0].delta);
    }
    let (e, d, stopped) = emit_delta(text, s.stop, s.emitted_len);
    if stopped {
        let fe = final_event(s.prompt_len, s.generated.len() + 1, FinishReason::Stop.label());
        let s1 = with_token(s, token, w.emitted);
        assert(retire_events(w.flushed, s1, FinishReason::Stop) =~= seq![fe]);
        assert(w.sent =~= evs.push(fe));
        assert(w.sent.drop_last() =~= evs);
        assert(sent_text(w.sent) =~= sent_text(evs) + fe.delta);
    }
}

/// A sequence's stream over the texts its tokens decode to, one per
/// token, until a stop string finishes it: the bytes emitted, the text
/// sent (every delta joined), whether it stopped, and the decoded text
/// the last emission saw.
pub open spec fn emit_run(texts: Seq<Seq<char>>, stops: Seq<Seq<char>>) -> (nat, Seq<char>, bool, Seq<char>)
    decreases texts.len(),
{
    if texts.len() == 0 {
        (0, Seq::empty(), false, Seq::empty())
    } else {
        let (e, out, stopped, t) = emit_run(texts.drop_last(), stops);
        if stopped {
            (e, out, true, t)
        } else {
            let (e2, d, st2) = emit_delta(texts.last(), stops, e);
            (e2, out + d, st2, texts.last())
        }
    }
}

/// A boundary of a text's bytes stays one when the text grows, and the
/// text's bytes stay the front of the longer text's bytes.
proof fn lemma_boundary_extend(a: Seq<char>, c: Seq<char>, i: int)
    requires
        a.is_prefix_of(c),
        is_char_boundary(encode_utf8(a), i),
    ensures
        is_char_boundary(encode_utf8(c), i),
        encode_utf8(a).len() <= encode_utf8(c).len(),
        encode_utf8(a) == encode_utf8(c).take(encode_utf8(a).len() as int),
{
    let rest = c.skip(a.len() as int);
    assert(c =~= a + rest);
    crate::stop::lemma_encode_utf8_concat(a, rest);
    let ba = encode_utf8(a);
    let bc = encode_utf8(c);
    let br = encode_utf8(rest);
    vstd::utf8::encode_utf8_valid_utf8(a);
    vstd::utf8::encode_utf8_valid_utf8(c);
    vstd::utf8::encode_utf8_valid_utf8(rest);
    assert(bc.take(ba.len() as int) =~= ba);
    assert(bc.subrange(0, ba.len() as int) =~= ba);
    lemma_boundary_range(ba, i);
    if rest.len() == 0 {
        assert(br.len() == 0);
        vstd::utf8::is_char_boundary_start_end_of_seq(bc);
    } else {
        lemma_encode_empty_iff(rest);
        vstd::utf8::is_char_boundary_start_end_of_seq(br);
        vstd::utf8::is_char_boundary_iff_not_is_continuation_byte(br, 0);
        assert(bc[ba.len() as int] == br[0]);
        vstd::utf8::is_char_boundary_iff_not_is_continuation_byte(bc, ba.len() as int);
    }
    assert(is_char_boundary(bc, ba.len() as int));
    lemma_boundary_prefix(bc, ba.len() as int, i);
}

/// One emission of the stream keeps what was sent the stop-free front of
/// the decoded text, cut at a character boundary.
proof fn lemma_stream_step(t: Seq<char>, big: Seq<char>, stops: Seq<Seq<char>>, e: nat, out: Seq<char>)
    requires
        forall|j: int| 0 <= j < stops.len() ==> (#[trigger] stops[j]).len() > 0,
        t.is_prefix_of(big),
        encode_utf8(big).len() <= usize::MAX,
        encode_utf8(out) == encode_utf8(t).take(e as int),
        is_char_boundary(encode_utf8(t), e as int),
        forall|j: int, p: int|
            0 <= j < stops.len() ==> !#[trigger] occurs_at(encode_utf8(out), encode_utf8(stops[j]), p),
    ensures
        ({
            let (e2, d, st2) = emit_delta(big, stops, e);
            &&& encode_utf8(out + d) == encode_utf8(big).take(e2 as int)
            &&& is_char_boundary(encode_utf8(big), e2 as int)
            &&& forall|j: int, p: int|
                0 <= j < stops.len() ==> !#[trigger] occurs_at(encode_utf8(out + d), encode_utf8(stops[j]), p)
        }),
{
    lemma_boundary_extend(t, big, e as int);
    vstd::utf8::encode_utf8_valid_utf8(t);
    lemma_boundary_range(encode_utf8(t), e as int);
    let b = encode_utf8(big);
    let bt = encode_utf8(t);
    assert(bt == b.take(bt.len() as int));
    assert(bt.take(e as int) =~= b.take(e as int)) by {
        assert forall|x: int| 0 <= x < e implies bt[x] == b[x] by {
            assert(bt.len() <= b.len());
            assert(bt[x] == b.take(bt.len() as int)[x]);
        }
    }
    let (e2, d, st2) = emit_delta(big, stops, e);
    match spec_text_step(big, stops, e) {
        TextStep::Stop { hit } => {
            if e < hit && slice_ok(b, e as int, hit as int) {
                law_stop_output_is_text_before_hit(big, stops, e, out, hit);
                assert(d == decode_utf8(b.subrange(e as int, hit as int)));
                let o2 = out + decode_utf8(b.subrange(e as int, hit as int));
                assert(out + d == o2);
                assert forall|j: int, p: int| 0 <= j < stops.len() implies !#[trigger] occurs_at(encode_utf8(out + d), encode_utf8(stops[j]), p) by {
                    assert(!occurs_at(encode_utf8(o2), encode_utf8(stops[j]), p));
                }
            } else {
                assert(out + d =~= out);
            }
        },
        TextStep::Emit { upto } => {
            if slice_ok(b, e as int, upto as int) {
                law_released_output_is_stop_free(big, stops, e, out, upto);
                let o2 = out + decode_utf8(b.subrange(e as int, upto as int));
                assert(out + d == o2);
                assert forall|j: int, p: int| 0 <= j < stops.len() implies !#[trigger] occurs_at(encode_utf8(out + d), encode_utf8(stops[j]), p) by {
                    assert(!occurs_at(encode_utf8(o2), encode_utf8(stops[j]), p));
                }
            } else {
                assert(out + d =~= out);
            }
        },
        TextStep::Hold => {
            assert(out + d =~= out);
        },
    }
}

/// Over a whole stream, what a sequence's requester is sent never holds
/// a stop string, and it is exactly the decoded text cut at the bytes
/// emitted (a character boundary): on a stop, the text before the stop
/// string. This holds when decoding more tokens only extends the text
/// decoded before (as a detokenizer does once no character is split).
pub proof fn law_stream_output_is_text_before_stop(texts: Seq<Seq<char>>, stops: Seq<Seq<char>>)
    requires
        forall|j: int| 0 <= j < stops.len() ==> (#[trigger] stops[j]).len() > 0,
        forall|k: int| 0 <= k < texts.len() - 1 ==> (#[trigger] texts[k]).is_prefix_of(texts[k + 1]),
        forall|k: int| 0 <= k < texts.len() ==> encode_utf8(#[trigger] texts[k]).len() <= usize::MAX,
    ensures
        ({
            let (e, out, stopped, t) = emit_run(texts, stops);
            &&& encode_utf8(out) == encode_utf8(t).take(e as int)
            &&& is_char_boundary(encode_utf8(t), e as int)
            &&& forall|j: int, p: int|
                0 <= j < stops.len() ==> !#[trigger] occurs_at(encode_utf8(out), encode_utf8(stops[j]), p)
            &&& (texts.len() > 0 && !stopped ==> t == texts.last())
            &&& (texts.len() > 0 ==> exists|k: int| 0 <= k < texts.len() && t == #[trigger] texts[k])
        }),
    decreases texts.len(),
{
    if texts.len() == 0 {
        vstd::utf8::is_char_boundary_start_end_of_seq(encode_utf8(Seq::<char>::empty()));
        assert(encode_utf8(Seq::<char>::empty()).take(0) =~= Seq::<u8>::empty());
        assert forall|j: int, p: int| 0 <= j < stops.len() implies !#[trigger] occurs_at(
            encode_utf8(Seq::<char>::empty()),
            encode_utf8(stops[j]),
            p,
        ) by {
            lemma_encode_empty_iff(stops[j]);
        }
        return;
    }
    let prev = texts.drop_last();
    assert forall|k: int| 0 <= k < prev.len() - 1 implies (#[trigger] prev[k]).is_prefix_of(prev[k + 1]) by {
        assert(prev[k] == texts[k] && prev[k + 1] == texts[k + 1]);
    }
    assert forall|k: int| 0 <= k < prev.len() implies encode_utf8(#[trigger] prev[k]).len() <= usize::MAX by {
        assert(prev[k] == texts[k]);
    }
    law_stream_output_is_text_before_stop(prev, stops);
    let (e, out, stopped, t) = emit_run(prev, stops);
    if stopped {
        if prev.len() > 0 {
            let k = choose|k: int| 0 <= k < prev.len() && t == #[trigger] prev[k];
            assert(t == texts[k]);
        }
        return;
    }
    let big = texts.last();
    let n = texts.len() as int;
    if prev.len() == 0 {
        assert(t.is_prefix_of(big));
    } else {
        assert(t == texts[n - 2]);
        assert(texts[n - 2].is_prefix_of(texts[n - 1]));
    }
    assert(texts[n - 1] == big);
    lemma_stream_step(t, big, stops, e, out);
    let (e2, d, st2) = emit_delta(big, stops, e);
    assert(emit_run(texts, stops) == (e2, out + d, st2, big));
}

/// The text a run of token steps emitted, every step's events joined (a
/// length finish's flush of held-back text not included).
pub open spec fn emitted_run(ws: Seq<TokenWitness>) -> Seq<char>
    decreases ws.len(),
{
    if ws.len() == 0 {
        Seq::empty()
    } else {
        emitted_run(ws.drop_last()) + sent_text(ws.last().evs)
    }
}

/// `states[k]` took `tokens[k]` as `ws[k]` says, each step but the last
/// keeping the sequence running as the next state, each token other than
/// the end token, and `texts[k]` what the tokens then decode to.
pub open spec fn token_run(
    states: Seq<SeqModel>,
    tokens: Seq<u32>,
    ws: Seq<TokenWitness>,
    texts: Seq<Seq<char>>,
    max_seq: nat,
) -> bool {
    &&& tokens.len() == states.len() && ws.len() == states.len() && texts.len() == states.len()
    &&& forall|k: int| 0 <= k < states.len() ==> #[trigger] took_token(states[k], tokens[k], max_seq, ws[k])
    &&& forall|k: int| 0 <= k < states.len() - 1 ==> #[trigger] ws[k].kept == Some(states[k + 1])
    &&& forall|k: int| 0 <= k < states.len() ==> (#[trigger] states[k]).eos_token_id != Some(tokens[k])
    &&& forall|k: int|
        0 <= k < states.len() ==> ((#[trigger] states[k]).decode)(states[k].generated.push(tokens[k])) == Some(
            texts[k],
        )
}

/// A run of token steps from a sequence that has emitted nothing is the
/// stream [`emit_run`] over the texts its tokens decode to.
proof fn lemma_token_run_is_emit_run(
    states: Seq<SeqModel>,
    tokens: Seq<u32>,
    ws: Seq<TokenWitness>,
    texts: Seq<Seq<char>>,
    max_seq: nat,
    stops: Seq<Seq<char>>,
)
    requires
        token_run(states, tokens, ws, texts, max_seq),
        states.len() > 0 ==> states[0].emitted_len == 0 && states[0].stop == stops,
    ensures
        emitted_run(ws) == emit_run(texts, stops).1,
        states.len() > 0 ==> {
            &&& states.last().stop == stops
            &&& ws.last().emitted == emit_run(texts, stops).0
            &&& (emit_run(texts, stops).2 <==> ws.last().outcome == Outcome::Finish(FinishReason::Stop))
            &&& emit_run(texts, stops).3 == texts.last()
        },
    decreases states.len(),
{
    let n = states.len() as int;
    if n == 0 {
        return;
    }
    let ps = states.drop_last();
    let pt = tokens.drop_last();
    let pw = ws.drop_last();
    let px = texts.drop_last();
    assert(token_run(ps, pt, pw, px, max_seq)) by {
        assert forall|k: int| 0 <= k < ps.len() implies #[trigger] took_token(ps[k], pt[k], max_seq, pw[k]) by {
            assert(took_token(states[k], tokens[k], max_seq, ws[k]));
        }
        assert forall|k: int| 0 <= k < ps.len() - 1 implies #[trigger] pw[k].kept == Some(ps[k + 1]) by {
            assert(ws[k].kept == Some(states[k + 1]));
        }
        assert forall|k: int| 0 <= k < ps.len() implies (#[trigger] ps[k]).eos_token_id != Some(pt[k]) by {
            assert(states[k].eos_token_id != Some(tokens[k]));
        }
        assert forall|k: int| 0 <= k < ps.len() implies ((#[trigger] ps[k]).decode)(ps[k].generated.push(pt[k]))
            == Some(px[k]) by {
            assert((states[k].decode)(states[k].generated.push(tokens[k])) == Some(texts[k]));
        }
    }
    lemma_token_run_is_emit_run(ps, pt, pw, px, max_seq, stops);
    let s = states[n - 1];
    assert(took_token(s, tokens[n - 1], max_seq, ws[n - 1]));
    assert(s.eos_token_id != Some(tokens[n - 1]));
    assert((s.decode)(s.generated.push(tokens[n - 1])) == Some(texts[n - 1]));
    law_token_is_stream_step(s, tokens[n - 1], max_seq, ws[n - 1]);
    if n > 1 {
        let prev = states[n - 2];
        let pw2 = ws[n - 2];
        assert(pw2.kept == Some(s));
        assert(took_token(prev, tokens[n - 2], max_seq, pw2));
        assert(prev.eos_token_id != Some(tokens[n - 2]));
        assert((prev.decode)(prev.generated.push(tokens[n - 2])) == Some(texts[n - 2]));
        law_token_is_stream_step(prev, tokens[n - 2], max_seq, pw2);
        assert(ps.last() == prev && pw.last() == pw2);
        assert(s == with_token(prev, tokens[n - 2], pw2.emitted));
    } else {
        assert(px =~= Seq::<Seq<char>>::empty());
        assert(pw =~= Seq::<TokenWitness>::empty());
    }
    assert(texts.last() == texts[n - 1]);
    assert(ws.last() == ws[n - 1]);
}

/// Over a run of token steps from a sequence that has emitted nothing,
/// what its requester is sent as the text comes (a length finish's flush
/// of held-back text aside) never holds a stop string, and it is exactly
/// the text the tokens decode to, cut at the bytes emitted, a character
/// boundary: on a stop, the text before the stop string. This holds when
/// decoding more tokens only extends the text decoded before (as a
/// detokenizer does once no character is split) and no stop string is
/// empty.
pub proof fn law_token_stream_is_text_before_stop(
    states: Seq<SeqModel>,
    tokens: Seq<u32>,
    ws: Seq<TokenWitness>,
    texts: Seq<Seq<char>>,
    max_seq: nat,
)
    requires
        token_run(states, tokens, ws, texts, max_seq),
        states.len() > 0,
        states[0].emitted_len == 0,
        forall|j: int| 0 <= j < states[0].stop.len() ==> (#[trigger] states[0].stop[j]).len() > 0,
        forall|k: int| 0 <= k < texts.len() - 1 ==> (#[trigger] texts[k]).is_prefix_of(texts[k + 1]),
        forall|k: int| 0 <= k < texts.len() ==> encode_utf8(#[trigger] texts[k]).len() <= usize::MAX,
    ensures
        ({
            let stops = states[0].stop;
            let out = emitted_run(ws);
            let e = ws.last().emitted;
            let t = texts.last();
            &&& encode_utf8(out) == encode_utf8(t).take(e as int)
            &&& is_char_boundary(encode_utf8(t), e as int)
            &&& forall|j: int, p: int|
                0 <= j < stops.len() ==> !#[trigger] occurs_at(encode_utf8(out), encode_utf8(stops[j]), p)
        }),
{
    let stops = states[0].stop;
    lemma_token_run_is_emit_run(states, tokens, ws, texts, max_seq, stops);
    law_stream_output_is_text_before_stop(texts, stops);
}

} // verus!
