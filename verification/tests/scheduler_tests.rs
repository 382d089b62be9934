use std::collections::HashMap;
use std::sync::mpsc;
use std::sync::{Arc, Mutex};

use cognitora::error::Error;
use cognitora::scheduler::{BatchModel, Client, Detokenize, Request, Scheduler, SchedulerConfig};
use cognitora::stop::{held_back_len, text_step, TextStep};
use cognitora::wire::StreamEvent;

/// Mock runtime: the "logits" always favour `next_token`, so generation is
/// deterministic; records call patterns.
struct MockModel {
    max_batch: usize,
    max_seq_len: usize,
    next_token: u32,
    kv: HashMap<u64, usize>,
    log: Arc<Mutex<Vec<String>>>,
    drops: u64,
    last_dropped: u64,
}

impl MockModel {
    fn new(max_batch: usize, max_seq_len: usize) -> Self {
        Self {
            max_batch,
            max_seq_len,
            next_token: 5,
            kv: HashMap::new(),
            log: Arc::new(Mutex::new(vec![])),
            drops: 0,
            last_dropped: 0,
        }
    }
}

impl BatchModel for MockModel {
    type Logits = u32;

    fn max_batch(&self) -> usize {
        self.max_batch
    }

    fn spec_max_batch(&self) -> usize {
        self.max_batch
    }

    fn spec_max_seq_len(&self) -> usize {
        self.max_seq_len
    }

    fn max_seq_len(&self) -> usize {
        self.max_seq_len
    }

    fn prefill(
        &mut self,
        seq: u64,
        tokens: &[u32],
        start_pos: usize,
        want_logits: bool,
    ) -> Result<Option<u32>, Error> {
        if start_pos == 0 {
            self.kv.insert(seq, 0);
        }
        let have = *self.kv.get(&seq).unwrap_or(&0);
        assert_eq!(have, start_pos, "prefill position contract violated");
        self.kv.insert(seq, start_pos + tokens.len());
        self.log
            .lock()
            .unwrap()
            .push(format!("prefill {seq} {} @{start_pos}", tokens.len()));
        Ok(if want_logits { Some(self.next_token) } else { None })
    }

    fn decode(&mut self, batch: &[(u64, u32)]) -> Result<Vec<u32>, Error> {
        assert!(batch.len() <= self.max_batch);
        let ids: Vec<u64> = batch.iter().map(|b| b.0).collect();
        self.log.lock().unwrap().push(format!("decode {ids:?}"));
        for &(seq, _) in batch {
            *self.kv.get_mut(&seq).expect("decode of unknown seq") += 1;
        }
        Ok(batch.iter().map(|_| self.next_token).collect())
    }

    fn drop_seq(&mut self, seq: u64) {
        self.kv.remove(&seq);
        self.log.lock().unwrap().push(format!("drop {seq}"));
        self.drops = self.drops.wrapping_add(1);
        self.last_dropped = seq;
    }

    fn spec_drops(&self) -> u64 {
        self.drops
    }

    fn spec_last_dropped(&self) -> u64 {
        self.last_dropped
    }
}

/// Greedy sampler over the mock logits, a word-level detokenizer where
/// token `i` reads `t<i>` (words joined by spaces), and a channel.
struct MockClient {
    tx: mpsc::Sender<StreamEvent>,
}

impl Detokenize for MockClient {
    fn detokenize(&self, tokens: &[u32]) -> Option<String> {
        Some(tokens.iter().map(|t| format!("t{t}")).collect::<Vec<_>>().join(" "))
    }
}

impl Client<u32> for MockClient {
    fn sample(&mut self, logits: u32, _history: &[u32]) -> u32 {
        logits
    }

    fn send(&mut self, ev: StreamEvent) -> bool {
        self.tx.send(ev).is_ok()
    }
}

fn mk_request(prompt: Vec<u32>, max_tokens: usize) -> (Request<MockClient>, mpsc::Receiver<StreamEvent>) {
    let (tx, rx) = mpsc::channel();
    (
        Request {
            prompt_tokens: prompt,
            max_tokens,
            stop: vec![],
            eos_token_id: None,
            client: MockClient { tx },
        },
        rx,
    )
}

fn drain(rx: &mut mpsc::Receiver<StreamEvent>) -> (String, Option<String>, usize) {
    let mut text = String::new();
    let mut finish = None;
    let mut completion = 0;
    while let Ok(ev) = rx.try_recv() {
        text.push_str(&ev.delta);
        completion = ev.completion_tokens;
        if ev.finish_reason.is_some() {
            finish = ev.finish_reason;
        }
    }
    (text, finish, completion)
}

fn sched(model: MockModel, cfg: SchedulerConfig) -> Scheduler<MockModel, MockClient> {
    Scheduler::new(model, cfg)
}

#[test]
fn single_request_runs_to_length() {
    let model = MockModel::new(4, 128);
    let mut s = sched(model, SchedulerConfig::default());
    let (req, mut rx) = mk_request(vec![1, 2, 3], 4);
    s.enqueue(req);
    for _ in 0..10 {
        s.step();
    }
    let (text, finish, completion) = drain(&mut rx);
    assert_eq!(finish.as_deref(), Some("length"));
    assert_eq!(completion, 4);
    assert!(text.contains("t5"));
    assert_eq!(s.counts(), (0, 0));
}

#[test]
fn decode_is_batched_across_sequences() {
    let model = MockModel::new(4, 128);
    let log = model.log.clone();
    let mut s = sched(model, SchedulerConfig::default());
    let (r1, mut rx1) = mk_request(vec![1, 2], 3);
    let (r2, mut rx2) = mk_request(vec![3, 4], 3);
    s.enqueue(r1);
    s.enqueue(r2);
    for _ in 0..12 {
        s.step();
    }
    assert_eq!(drain(&mut rx1).1.as_deref(), Some("length"));
    assert_eq!(drain(&mut rx2).1.as_deref(), Some("length"));
    let log = log.lock().unwrap();
    assert!(log.iter().any(|l| l == "decode [1, 2]"), "no batched decode found in {log:?}");
}

#[test]
fn sequential_runtime_serializes() {
    let model = MockModel::new(1, 128);
    let log = model.log.clone();
    let mut s = sched(model, SchedulerConfig::default());
    assert_eq!(s.max_batch(), 1);
    let (r1, mut rx1) = mk_request(vec![1], 2);
    let (r2, mut rx2) = mk_request(vec![2], 2);
    s.enqueue(r1);
    s.enqueue(r2);
    for _ in 0..12 {
        s.step();
    }
    assert_eq!(drain(&mut rx1).1.as_deref(), Some("length"));
    assert_eq!(drain(&mut rx2).1.as_deref(), Some("length"));
    for l in log.lock().unwrap().iter() {
        assert!(!l.contains(','), "batched call on sequential runtime: {l}");
    }
}

#[test]
fn long_prompt_is_chunked() {
    let model = MockModel::new(4, 4096);
    let log = model.log.clone();
    let mut s = sched(model, SchedulerConfig { prefill_chunk: 8, ..Default::default() });
    let (req, mut rx) = mk_request((0..20).collect(), 1);
    s.enqueue(req);
    for _ in 0..8 {
        s.step();
    }
    assert_eq!(drain(&mut rx).1.as_deref(), Some("length"));
    let log = log.lock().unwrap();
    let chunks: Vec<&String> = log.iter().filter(|l| l.starts_with("prefill")).collect();
    assert_eq!(chunks, vec!["prefill 1 8 @0", "prefill 1 8 @8", "prefill 1 4 @16"]);
}

#[test]
fn admission_respects_kv_budget() {
    let model = MockModel::new(4, 4096);
    let mut s = sched(model, SchedulerConfig { kv_pool_tokens: 32, ..Default::default() });
    let (r1, _rx1) = mk_request((0..17).collect(), 100);
    let (r2, _rx2) = mk_request((0..17).collect(), 100);
    s.enqueue(r1);
    s.enqueue(r2);
    s.admit_waiting();
    assert_eq!(s.counts(), (1, 1));
}

#[test]
fn pool_pressure_preempts_youngest_and_requeues() {
    let model = MockModel::new(4, 4096);
    let mut s = sched(model, SchedulerConfig { kv_pool_tokens: 48, ..Default::default() });
    let (r1, mut rx1) = mk_request((0..17).collect(), 100);
    let (r2, mut rx2) = mk_request((0..15).collect(), 100);
    s.enqueue(r1);
    s.enqueue(r2);
    for _ in 0..600 {
        s.step();
    }
    let (_, f1, _) = drain(&mut rx1);
    let (_, f2, _) = drain(&mut rx2);
    assert_eq!(f1.as_deref(), Some("length"));
    assert_eq!(f2.as_deref(), Some("length"));
}

#[test]
fn eos_finishes_with_stop() {
    let model = MockModel::new(4, 128);
    let mut s = sched(model, SchedulerConfig::default());
    let (mut req, mut rx) = mk_request(vec![1, 2], 10);
    req.eos_token_id = Some(5);
    s.enqueue(req);
    for _ in 0..5 {
        s.step();
    }
    let (text, finish, completion) = drain(&mut rx);
    assert_eq!(finish.as_deref(), Some("stop"));
    assert_eq!(completion, 0);
    assert!(text.is_empty());
}

#[test]
fn stop_string_truncates_output() {
    let model = MockModel::new(4, 128);
    let mut s = sched(model, SchedulerConfig::default());
    let (mut req, mut rx) = mk_request(vec![1, 2], 10);
    req.stop = vec!["t5 t5".into()];
    s.enqueue(req);
    for _ in 0..20 {
        s.step();
    }
    let (text, finish, _) = drain(&mut rx);
    assert_eq!(finish.as_deref(), Some("stop"));
    assert!(!text.contains("t5 t5"), "stop string leaked into: {text:?}");
}

#[test]
fn oversized_prompt_errors_immediately() {
    let model = MockModel::new(4, 16);
    let mut s = sched(model, SchedulerConfig::default());
    let (req, mut rx) = mk_request((0..16).collect(), 4);
    s.enqueue(req);
    let (_, finish, _) = drain(&mut rx);
    assert_eq!(finish.as_deref(), Some("error"));
    assert_eq!(s.counts(), (0, 0));
}

#[test]
fn holds_back_partial_stop_match() {
    let stops = vec!["</s>".to_string()];
    assert_eq!(held_back_len("hello </", &stops), 6);
    assert_eq!(held_back_len("hello <", &stops), 6);
    assert_eq!(held_back_len("hello", &stops), 5);
    assert_eq!(held_back_len("hello", &[]), 5);
}

#[test]
fn empty_prompt_is_rejected_with_error() {
    let model = MockModel::new(4, 128);
    let mut s = sched(model, SchedulerConfig::default());
    let (req, mut rx) = mk_request(vec![], 4);
    s.enqueue(req);
    let (_, finish, completion) = drain(&mut rx);
    assert_eq!(finish.as_deref(), Some("error"));
    assert_eq!(completion, 0);
    assert_eq!(s.next_id(), 2);
    assert!(s.is_idle());
}

#[test]
fn length_finish_streams_every_token() {
    let model = MockModel::new(4, 128);
    let mut s = sched(model, SchedulerConfig::default());
    let (req, mut rx) = mk_request(vec![1], 3);
    s.enqueue(req);
    for _ in 0..6 {
        s.step();
    }
    let (text, finish, completion) = drain(&mut rx);
    assert_eq!(text, "t5 t5 t5");
    assert_eq!(finish.as_deref(), Some("length"));
    assert_eq!(completion, 3);
}

#[test]
fn budget_is_capped_by_context() {
    let model = MockModel::new(4, 6);
    let mut s = sched(model, SchedulerConfig::default());
    let (req, mut rx) = mk_request(vec![1, 2, 3, 4], 100);
    s.enqueue(req);
    for _ in 0..10 {
        s.step();
    }
    let (_, finish, completion) = drain(&mut rx);
    assert_eq!(finish.as_deref(), Some("length"));
    assert_eq!(completion, 2);
}

#[test]
fn config_is_clamped_at_construction() {
    let model = MockModel::new(2, 128);
    let s = sched(model, SchedulerConfig { max_batch: 8, prefill_chunk: 0, kv_pool_tokens: 0 });
    assert_eq!(s.max_batch(), 2);
    assert_eq!(s.prefill_chunk(), 1);
    assert_eq!(s.tick(), 0);
    assert_eq!(s.next_id(), 1);
    let d = SchedulerConfig::default();
    assert_eq!((d.max_batch, d.prefill_chunk, d.kv_pool_tokens), (8, 512, 65536));
}

#[test]
fn vanished_requester_is_dropped_quietly() {
    let model = MockModel::new(4, 128);
    let mut s = sched(model, SchedulerConfig::default());
    let (req, rx) = mk_request(vec![1, 2], 50);
    drop(rx);
    s.enqueue(req);
    for _ in 0..4 {
        s.step();
    }
    assert_eq!(s.counts(), (0, 0));
}

#[test]
fn text_step_finds_earliest_stop() {
    let stops = vec!["cd".to_string(), "b".to_string()];
    assert_eq!(text_step("abcd", &stops, 0), TextStep::Stop { hit: 1 });
}

#[test]
fn text_step_holds_incomplete_character() {
    assert_eq!(text_step("ab\u{FFFD}", &[], 0), TextStep::Hold);
}

#[test]
fn text_step_emits_up_to_a_growing_tail() {
    let stops = vec!["</s>".to_string()];
    assert_eq!(text_step("hello </", &stops, 0), TextStep::Emit { upto: 6 });
    assert_eq!(text_step("hello </", &stops, 6), TextStep::Hold);
    assert_eq!(text_step("héllo", &[], 2), TextStep::Emit { upto: 6 });
}

#[test]
fn stop_output_is_the_text_before_the_hit() {
    let model = MockModel::new(4, 128);
    let mut s = sched(model, SchedulerConfig::default());
    let (mut req, mut rx) = mk_request(vec![1, 2], 10);
    req.stop = vec![" t5 t5".into()];
    s.enqueue(req);
    for _ in 0..20 {
        s.step();
    }
    let (text, finish, _) = drain(&mut rx);
    assert_eq!(finish.as_deref(), Some("stop"));
    assert_eq!(text, "t5");
}

#[test]
fn finished_sequences_are_dropped_from_the_runtime_once() {
    let model = MockModel::new(4, 128);
    let log = model.log.clone();
    let mut s = sched(model, SchedulerConfig::default());
    let (r1, mut rx1) = mk_request(vec![1, 2], 2);
    let (r2, mut rx2) = mk_request(vec![3], 3);
    s.enqueue(r1);
    s.enqueue(r2);
    for _ in 0..10 {
        s.step();
    }
    assert_eq!(drain(&mut rx1).1.as_deref(), Some("length"));
    assert_eq!(drain(&mut rx2).1.as_deref(), Some("length"));
    let log = log.lock().unwrap();
    let drops: Vec<&String> = log.iter().filter(|l| l.starts_with("drop")).collect();
    assert_eq!(drops.len(), 2, "{log:?}");
    assert_eq!(log.iter().filter(|l| *l == "drop 1").count(), 1);
    assert_eq!(log.iter().filter(|l| *l == "drop 2").count(), 1);
}
