//! Decisions of the host-local KV daemon: tiered-store eviction, the
//! replies of its RPCs, and which prefix digests count as resident.
//!
//! Blocks live in RAM and spill to SSD under memory pressure; SSD blocks
//! expire after a TTL. The daemon answers lookups, promotions and
//! peer-to-peer pushes and pulls with gRPC-coded statuses.
use vstd::prelude::*;

use crate::text::{push_str, string_from_chars};

verus! {

/// Storage tier of a block.
#[derive(Debug, Clone, Copy, PartialEq, Eq, Structural)]
pub enum TierKind {
    Gpu,
    Ram,
    Ssd,
}

/// Blocks spilled per round of an eviction pass.
pub const SPILL_BATCH: usize = 32;

/// Next move of the RAM → SSD spill loop.
#[derive(Debug, Clone, Copy, PartialEq, Eq, Structural)]
pub enum SpillAction {
    /// Spill another batch of the coldest blocks.
    SpillBatch,
    /// Stop: under the watermark, no RAM tier, or the last batch freed nothing.
    Done,
}

/// The spill loop's decision from the RAM capacity, the watermark target,
/// the occupancy before the last batch (none before the first) and the
/// occupancy now.
pub open spec fn spec_spill_action(cap: u64, target: u64, before: Option<u64>, used: u64) -> SpillAction {
    if cap == 0 || used <= target {
        SpillAction::Done
    } else if before matches Some(b) && used >= b {
        SpillAction::Done
    } else {
        SpillAction::SpillBatch
    }
}

/// Decide whether the eviction pass spills another batch.
pub fn spill_action(cap: u64, target: u64, before: Option<u64>, used: u64) -> (a: SpillAction)
    ensures
        a == spec_spill_action(cap, target, before, used),
{
    if cap == 0 || used <= target {
        return SpillAction::Done;
    }
    match before {
        Some(b) => if used >= b {
            SpillAction::Done
        } else {
            SpillAction::SpillBatch
        },
        None => SpillAction::SpillBatch,
    }
}

/// A spill round only follows a round that freed memory, so the loop
/// cannot spin forever: occupancy strictly falls from round to round.
pub proof fn law_spill_rounds_make_progress(cap: u64, target: u64, before: u64, used: u64)
    requires
        spec_spill_action(cap, target, Some(before), used) == SpillAction::SpillBatch,
    ensures
        used < before,
        used > target,
        cap > 0,
{
}

/// Whether an SSD block has outlived the TTL (a TTL of 0 disables expiry).
pub open spec fn spec_ttl_expired(tier: TierKind, now: u64, last_seen: u64, ttl_secs: u64) -> bool {
    ttl_secs != 0 && tier == TierKind::Ssd && (if now > last_seen { now - last_seen } else { 0 }) > ttl_secs
}

/// Whether an index entry is dropped by the SSD-TTL half of the pass.
pub fn ttl_expired(tier: TierKind, now: u64, last_seen: u64, ttl_secs: u64) -> (b: bool)
    ensures
        b == spec_ttl_expired(tier, now, last_seen, ttl_secs),
{
    ttl_secs != 0 && tier == TierKind::Ssd && now.saturating_sub(last_seen) > ttl_secs
}

/// Number of SSD entries among `tiers`.
pub open spec fn ssd_count(tiers: Seq<TierKind>) -> nat
    decreases tiers.len(),
{
    if tiers.len() == 0 {
        0
    } else {
        ssd_count(tiers.drop_last()) + if tiers.last() == TierKind::Ssd { 1nat } else { 0nat }
    }
}

proof fn lemma_ssd_count_bound(tiers: Seq<TierKind>)
    ensures
        ssd_count(tiers) <= tiers.len(),
    decreases tiers.len(),
{
    if tiers.len() > 0 {
        lemma_ssd_count_bound(tiers.drop_last());
    }
}

/// Count of index entries resident on SSD, given each entry's tier.
pub fn cold_block_count(tiers: &[TierKind]) -> (n: u64)
    ensures
        n == ssd_count(tiers@),
{
    let mut n: u64 = 0;
    let mut i: usize = 0;
    while i < tiers.len()
        invariant
            i <= tiers@.len(),
            n == ssd_count(tiers@.take(i as int)),
        decreases tiers@.len() - i,
    {
        proof {
            assert(tiers@.take(i + 1).drop_last() =~= tiers@.take(i as int));
            lemma_ssd_count_bound(tiers@.take(i as int));
        }
        if tiers[i] == TierKind::Ssd {
            n = n + 1;
        }
        i = i + 1;
    }
    assert(tiers@.take(tiers@.len() as int) =~= tiers@);
    n
}

/// A 32-byte block digest from raw bytes, if they have that length.
pub fn digest_from_bytes(b: &[u8]) -> (r: Option<[u8; 32]>)
    ensures
        b@.len() != 32 ==> r is None,
        b@.len() == 32 ==> (r matches Some(d) && d@ == b@),
{
    if b.len() != 32 {
        return None;
    }
    let mut d: [u8; 32] = [0u8; 32];
    let mut i: usize = 0;
    while i < 32
        invariant
            b@.len() == 32,
            d@.len() == 32,
            i <= 32,
            forall|j: int| 0 <= j < i ==> d@[j] == b@[j],
        decreases 32 - i,
    {
        d.set(i, b[i]);
        i = i + 1;
    }
    assert(d@ =~= b@);
    Some(d)
}

/// Tier of a block as reported on the wire.
#[derive(Debug, Clone, Copy, PartialEq, Eq, Structural)]
pub enum WireTier {
    Unspecified,
    Gpu,
    Ram,
    Ssd,
}

/// Wire tier of a stored block.
pub open spec fn spec_wire_tier(t: TierKind) -> WireTier {
    match t {
        TierKind::Gpu => WireTier::Gpu,
        TierKind::Ram => WireTier::Ram,
        TierKind::Ssd => WireTier::Ssd,
    }
}

pub fn wire_tier(t: TierKind) -> (w: WireTier)
    ensures
        w == spec_wire_tier(t),
{
    match t {
        TierKind::Gpu => WireTier::Gpu,
        TierKind::Ram => WireTier::Ram,
        TierKind::Ssd => WireTier::Ssd,
    }
}

/// What the store knows of a found block.
#[derive(Debug, Clone, Copy)]
pub struct BlockMeta {
    pub tier: TierKind,
    pub bytes: u64,
    pub last_seen_unix: u64,
}

/// Lookup answer for one digest.
#[derive(Debug, Clone)]
pub struct BlockInfo {
    pub prefix_hash: Vec<u8>,
    pub tier: WireTier,
    pub size_bytes: u64,
    pub owner_node: String,
    pub last_access_unix_ms: u64,
}

/// The lookup answer for `digest`: what the store holds of it, or an
/// unspecified-tier, zero-size entry on a miss.
pub fn block_info(digest: &[u8; 32], found: Option<BlockMeta>) -> (i: BlockInfo)
    requires
        found matches Some(m) ==> m.last_seen_unix * 1000 <= u64::MAX,
    ensures
        i.prefix_hash@ == digest@,
        i.owner_node@ == Seq::<char>::empty(),
        match found {
            Some(m) => i.tier == spec_wire_tier(m.tier) && i.size_bytes == m.bytes && i.last_access_unix_ms
                == m.last_seen_unix * 1000,
            None => i.tier == WireTier::Unspecified && i.size_bytes == 0 && i.last_access_unix_ms == 0,
        },
{
    let hash = vstd::slice::slice_to_vec(digest.as_slice());
    match found {
        Some(m) => BlockInfo {
            prefix_hash: hash,
            tier: wire_tier(m.tier),
            size_bytes: m.bytes,
            owner_node: String::new(),
            last_access_unix_ms: m.last_seen_unix * 1000,
        },
        None => BlockInfo {
            prefix_hash: hash,
            tier: WireTier::Unspecified,
            size_bytes: 0,
            owner_node: String::new(),
            last_access_unix_ms: 0,
        },
    }
}

/// A gRPC-coded status reply.
#[derive(Debug, Clone)]
pub struct Reply {
    pub code: u32,
    pub message: String,
}

/// gRPC status codes the daemon replies with.
pub const CODE_OK: u32 = 0;
pub const CODE_INVALID_ARGUMENT: u32 = 3;
pub const CODE_NOT_FOUND: u32 = 5;
pub const CODE_INTERNAL: u32 = 13;
pub const CODE_UNAVAILABLE: u32 = 14;

fn reply(code: u32, head: &str, detail: &str) -> (r: Reply)
    ensures
        r.code == code,
        r.message@ == head@ + detail@,
{
    let mut m: Vec<char> = Vec::new();
    push_str(&mut m, head);
    push_str(&mut m, detail);
    Reply { code, message: string_from_chars(m.as_slice()) }
}

/// Reply to a promotion: promotion means the block is resident.
pub fn promote_reply(found: bool) -> (r: Reply)
    ensures
        found ==> r.code == CODE_OK && r.message@ == "promoted"@,
        !found ==> r.code == CODE_NOT_FOUND && r.message@ == "miss"@,
{
    if found {
        Reply { code: CODE_OK, message: String::from_str("promoted") }
    } else {
        Reply { code: CODE_NOT_FOUND, message: String::from_str("miss") }
    }
}

/// How a push to a peer went.
#[derive(Debug, Clone)]
pub enum PushOutcome {
    /// The block is not in RAM, so there is nothing to push.
    NotResident,
    /// The target endpoint did not parse; the parser's message.
    BadEndpoint(String),
    /// The transfer failed; the transport's message.
    Failed(String),
    Pushed,
}

/// Reply to a push request.
pub fn push_reply(o: &PushOutcome) -> (r: Reply)
    ensures
        match o {
            PushOutcome::NotResident => r.code == CODE_NOT_FOUND && r.message@ == "block not resident"@,
            PushOutcome::BadEndpoint(e) => r.code == CODE_INVALID_ARGUMENT && r.message@ == "bad target_endpoint: "@
                + e@,
            PushOutcome::Failed(e) => r.code == CODE_UNAVAILABLE && r.message@ == "push: "@ + e@,
            PushOutcome::Pushed => r.code == CODE_OK && r.message@ == "pushed"@,
        },
{
    match o {
        PushOutcome::NotResident => Reply { code: CODE_NOT_FOUND, message: String::from_str("block not resident") },
        PushOutcome::BadEndpoint(e) => reply(CODE_INVALID_ARGUMENT, "bad target_endpoint: ", e.as_str()),
        PushOutcome::Failed(e) => reply(CODE_UNAVAILABLE, "push: ", e.as_str()),
        PushOutcome::Pushed => Reply { code: CODE_OK, message: String::from_str("pushed") },
    }
}

/// How a pull from a peer went.
#[derive(Debug, Clone)]
pub enum PullOutcome {
    /// The source endpoint did not parse; the parser's message.
    BadEndpoint(String),
    /// The transfer failed; the transport's message.
    Failed(String),
    /// The peer answered with no bytes.
    Empty,
    /// The bytes arrived but storing them failed; the store's message.
    InsertFailed(String),
    Pulled,
}

/// Reply to a pull request.
pub fn pull_reply(o: &PullOutcome) -> (r: Reply)
    ensures
        match o {
            PullOutcome::BadEndpoint(e) => r.code == CODE_INVALID_ARGUMENT && r.message@ == "bad source_endpoint: "@
                + e@,
            PullOutcome::Failed(e) => r.code == CODE_UNAVAILABLE && r.message@ == "pull: "@ + e@,
            PullOutcome::Empty => r.code == CODE_NOT_FOUND && r.message@ == "peer returned empty"@,
            PullOutcome::InsertFailed(e) => r.code == CODE_INTERNAL && r.message@ == "local insert: "@ + e@,
            PullOutcome::Pulled => r.code == CODE_OK && r.message@ == "pulled"@,
        },
{
    match o {
        PullOutcome::BadEndpoint(e) => reply(CODE_INVALID_ARGUMENT, "bad source_endpoint: ", e.as_str()),
        PullOutcome::Failed(e) => reply(CODE_UNAVAILABLE, "pull: ", e.as_str()),
        PullOutcome::Empty => Reply { code: CODE_NOT_FOUND, message: String::from_str("peer returned empty") },
        PullOutcome::InsertFailed(e) => reply(CODE_INTERNAL, "local insert: ", e.as_str()),
        PullOutcome::Pulled => Reply { code: CODE_OK, message: String::from_str("pulled") },
    }
}

/// The digests among `ds` that are 32 bytes long, in order.
pub open spec fn well_formed_digests(ds: Seq<Seq<u8>>) -> Seq<Seq<u8>>
    decreases ds.len(),
{
    if ds.len() == 0 {
        Seq::empty()
    } else if ds.last().len() == 32 {
        well_formed_digests(ds.drop_last()).push(ds.last())
    } else {
        well_formed_digests(ds.drop_last())
    }
}

/// Views of a list of byte strings.
pub open spec fn views_of(ds: Seq<Vec<u8>>) -> Seq<Seq<u8>> {
    ds.map_values(|d: Vec<u8>| d@)
}

/// The digests worth asking the daemon about: the 32-byte ones.
pub fn lookup_candidates(digests: &[Vec<u8>]) -> (out: Vec<Vec<u8>>)
    ensures
        views_of(out@) == well_formed_digests(views_of(digests@)),
{
    let mut out: Vec<Vec<u8>> = Vec::new();
    let mut i: usize = 0;
    while i < digests.len()
        invariant
            i <= digests@.len(),
            views_of(out@) == well_formed_digests(views_of(digests@.take(i as int))),
        decreases digests@.len() - i,
    {
        assert(views_of(digests@.take(i + 1)).drop_last() =~= views_of(digests@.take(i as int)));
        if digests[i].len() == 32 {
            let ghost before = out@;
            out.push(vstd::slice::slice_to_vec(digests[i].as_slice()));
            assert(views_of(out@) =~= views_of(before).push(digests@[i as int]@));
        }
        i = i + 1;
    }
    assert(digests@.take(digests@.len() as int) =~= digests@);
    out
}

/// The resident digests a batch lookup reported: entries with a size and
/// a 32-byte hash, in order.
pub open spec fn resident_hashes(entries: Seq<BlockInfo>) -> Seq<Seq<u8>>
    decreases entries.len(),
{
    if entries.len() == 0 {
        Seq::empty()
    } else if entries.last().size_bytes > 0 && entries.last().prefix_hash@.len() == 32 {
        resident_hashes(entries.drop_last()).push(entries.last().prefix_hash@)
    } else {
        resident_hashes(entries.drop_last())
    }
}

/// Prefix digests a batch lookup reports as resident.
pub fn resident_digests(entries: &[BlockInfo]) -> (out: Vec<Vec<u8>>)
    ensures
        views_of(out@) == resident_hashes(entries@),
{
    let mut out: Vec<Vec<u8>> = Vec::new();
    let mut i: usize = 0;
    while i < entries.len()
        invariant
            i <= entries@.len(),
            views_of(out@) == resident_hashes(entries@.take(i as int)),
        decreases entries@.len() - i,
    {
        assert(entries@.take(i + 1).drop_last() =~= entries@.take(i as int));
        let e = &entries[i];
        if e.size_bytes > 0 && e.prefix_hash.len() == 32 {
            let ghost before = out@;
            out.push(vstd::slice::slice_to_vec(e.prefix_hash.as_slice()));
            assert(views_of(out@) =~= views_of(before).push(entries@[i as int].prefix_hash@));
        }
        i = i + 1;
    }
    assert(entries@.take(entries@.len() as int) =~= entries@);
    out
}

/// Process-lifetime cache counters of the daemon. Each counter wraps
/// around on overflow.
#[derive(Debug, Clone, Copy)]
pub struct KvStats {
    pub hits: u64,
    pub misses: u64,
    pub evictions: u64,
    pub spills: u64,
    pub bytes_pushed: u64,
    pub bytes_pulled: u64,
}

impl KvStats {
    pub fn new() -> (s: Self)
        ensures
            s.hits == 0 && s.misses == 0 && s.evictions == 0 && s.spills == 0 && s.bytes_pushed == 0
                && s.bytes_pulled == 0,
    {
        KvStats { hits: 0, misses: 0, evictions: 0, spills: 0, bytes_pushed: 0, bytes_pulled: 0 }
    }

    /// Count a lookup: a hit when any tier held the block.
    pub fn record_lookup(&mut self, hit: bool)
        ensures
            hit ==> final(self).hits == old(self).hits.wrapping_add(1) && final(self).misses == old(self).misses,
            !hit ==> final(self).misses == old(self).misses.wrapping_add(1) && final(self).hits == old(self).hits,
            final(self).evictions == old(self).evictions,
            final(self).spills == old(self).spills,
            final(self).bytes_pushed == old(self).bytes_pushed,
            final(self).bytes_pulled == old(self).bytes_pulled,
    {
        if hit {
            self.hits = self.hits.wrapping_add(1);
        } else {
            self.misses = self.misses.wrapping_add(1);
        }
    }

    /// Count a block spilled from RAM to SSD.
    pub fn record_spill(&mut self)
        ensures
            *final(self) == (KvStats { spills: old(self).spills.wrapping_add(1), ..*old(self) }),
    {
        self.spills = self.spills.wrapping_add(1);
    }

    /// Count an SSD block dropped by the TTL.
    pub fn record_eviction(&mut self)
        ensures
            *final(self) == (KvStats { evictions: old(self).evictions.wrapping_add(1), ..*old(self) }),
    {
        self.evictions = self.evictions.wrapping_add(1);
    }
}

} // verus!
