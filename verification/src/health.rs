//! What the node-health emitter publishes and how: which backend carries
//! the heartbeats, the lease that makes a dead node's entry disappear,
//! the address peers reach the node at, and the entries of the pipeline
//! workers the node spawned.
use vstd::prelude::*;

use crate::text::{decimal, push_decimal, push_str, string_from_chars};

verus! {

/// Seconds between heartbeats.
pub const HEARTBEAT_INTERVAL_SECS: i64 = 5;

/// TTL of the heartbeat lease: three heartbeats, so two missed ones
/// still leave the entry visible.
pub fn lease_ttl_secs() -> (t: i64)
    ensures
        t == 3 * HEARTBEAT_INTERVAL_SECS,
{
    HEARTBEAT_INTERVAL_SECS * 3
}

/// Where heartbeats go.
#[derive(Debug, Clone, Copy, PartialEq, Eq, Structural)]
pub enum EmitMode {
    /// Refresh the node record in the gossip cluster.
    Gossip,
    /// No cluster store: snapshot health locally only.
    SingleNode,
    /// Write the node record to etcd under a lease.
    Etcd,
}

/// Gossip when configured; otherwise etcd, unless no etcd endpoint is
/// configured.
pub fn emit_mode(gossip_enabled: bool, etcd_endpoints: usize) -> (m: EmitMode)
    ensures
        m == if gossip_enabled {
            EmitMode::Gossip
        } else if etcd_endpoints == 0 {
            EmitMode::SingleNode
        } else {
            EmitMode::Etcd
        },
{
    if gossip_enabled {
        EmitMode::Gossip
    } else if etcd_endpoints == 0 {
        EmitMode::SingleNode
    } else {
        EmitMode::Etcd
    }
}

/// The address peers reach a node at: `https` when mTLS is required.
pub open spec fn spec_node_address(require_mtls: bool, listen: Seq<char>) -> Seq<char> {
    (if require_mtls { "https"@ } else { "http"@ }) + "://"@ + listen
}

pub fn node_address(require_mtls: bool, listen: &str) -> (a: String)
    ensures
        a@ == spec_node_address(require_mtls, listen@),
{
    let mut v: Vec<char> = Vec::new();
    push_str(&mut v, if require_mtls { "https" } else { "http" });
    push_str(&mut v, "://");
    push_str(&mut v, listen);
    assert(v@ =~= spec_node_address(require_mtls, listen@));
    string_from_chars(v.as_slice())
}

/// A configured pipeline worker of the served model.
#[derive(Debug, Clone)]
pub struct PipelineWorker {
    /// Whether this node spawns the worker itself.
    pub spawn: bool,
    pub listen: String,
}

/// The registration of a spawned pipeline worker: listed in cluster
/// state for visibility, never routed to.
#[derive(Debug, Clone)]
pub struct WorkerRecord {
    /// Position of the worker in the pipeline.
    pub index: usize,
    pub node_id: String,
    pub address: String,
}

/// `<node>-pipeline-worker-<i>`.
pub open spec fn worker_id(node_id: Seq<char>, i: nat) -> Seq<char> {
    node_id + "-pipeline-worker-"@ + decimal(i)
}

/// The records of the spawned workers among `workers`, in order.
pub open spec fn spec_worker_records(node_id: Seq<char>, workers: Seq<PipelineWorker>) -> Seq<
    (nat, Seq<char>, Seq<char>),
>
    decreases workers.len(),
{
    if workers.len() == 0 {
        Seq::empty()
    } else {
        let prev = spec_worker_records(node_id, workers.drop_last());
        let i = (workers.len() - 1) as nat;
        if workers.last().spawn {
            prev.push((i, worker_id(node_id, i), "http://"@ + workers.last().listen@))
        } else {
            prev
        }
    }
}

/// Abstract records.
pub open spec fn record_views(v: Seq<WorkerRecord>) -> Seq<(nat, Seq<char>, Seq<char>)> {
    v.map_values(|r: WorkerRecord| (r.index as nat, r.node_id@, r.address@))
}

/// The entries a node publishes for the pipeline workers it spawns.
pub fn pipeline_worker_records(node_id: &str, workers: &[PipelineWorker]) -> (out: Vec<WorkerRecord>)
    ensures
        record_views(out@) == spec_worker_records(node_id@, workers@),
{
    let mut out: Vec<WorkerRecord> = Vec::new();
    let mut i: usize = 0;
    while i < workers.len()
        invariant
            i <= workers@.len(),
            record_views(out@) == spec_worker_records(node_id@, workers@.take(i as int)),
        decreases workers@.len() - i,
    {
        assert(workers@.take(i + 1).drop_last() =~= workers@.take(i as int));
        if workers[i].spawn {
            let mut id: Vec<char> = Vec::new();
            push_str(&mut id, node_id);
            push_str(&mut id, "-pipeline-worker-");
            push_decimal(&mut id, i as u64);
            let mut addr: Vec<char> = Vec::new();
            push_str(&mut addr, "http://");
            push_str(&mut addr, workers[i].listen.as_str());
            let ghost before = out@;
            out.push(WorkerRecord {
                index: i,
                node_id: string_from_chars(id.as_slice()),
                address: string_from_chars(addr.as_slice()),
            });
            assert(id@ =~= worker_id(node_id@, i as nat));
            assert(record_views(out@) =~= record_views(before).push(
                (i as nat, worker_id(node_id@, i as nat), "http://"@ + workers@[i as int].listen@),
            ));
        }
        i = i + 1;
    }
    assert(workers@.take(workers@.len() as int) =~= workers@);
    out
}

/// What came of waiting briefly for the lease's keep-alive reply.
#[derive(Debug, Clone, Copy, PartialEq, Eq, Structural)]
pub enum KeepAliveReply {
    /// A reply arrived.
    Reply,
    /// The server closed the reply stream.
    Closed,
    /// Receiving failed.
    Failed,
    /// No reply within the wait.
    TimedOut,
}

/// What the heartbeat loop does next.
#[derive(Debug, Clone, Copy, PartialEq, Eq, Structural)]
pub enum LeaseNext {
    /// Sleep one heartbeat and publish again.
    Continue,
    /// The lease session is over; stop without error.
    End,
    /// The lease session failed.
    Fail,
}

/// After renewing the lease: a reply, or none in time, keeps the loop
/// going; a closed stream ends the session; a receive error fails it.
pub fn after_keep_alive(reply: KeepAliveReply) -> (n: LeaseNext)
    ensures
        n == match reply {
            KeepAliveReply::Reply | KeepAliveReply::TimedOut => LeaseNext::Continue,
            KeepAliveReply::Closed => LeaseNext::End,
            KeepAliveReply::Failed => LeaseNext::Fail,
        },
{
    match reply {
        KeepAliveReply::Reply => LeaseNext::Continue,
        KeepAliveReply::TimedOut => LeaseNext::Continue,
        KeepAliveReply::Closed => LeaseNext::End,
        KeepAliveReply::Failed => LeaseNext::Fail,
    }
}

} // verus!
