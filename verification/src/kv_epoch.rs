//! Engine KV-cache epoch tracking for router-side prefix reconciliation.
//!
//! The agent bumps a monotonic `kv_epoch` in its heartbeat when it
//! detects cache resets (engine restart, block-pool resize, or a large
//! sudden increase in free blocks), giving the router a conservative
//! signal to purge stale prefix claims for that node.
use vstd::prelude::*;

verus! {

/// Engine gauges scraped from its metrics endpoint.
#[derive(Debug, Clone, Copy, PartialEq, Eq, Structural)]
pub struct EngineStats {
    pub queue_depth: u32,
    pub free_blocks: u32,
    pub total_blocks: u32,
}

impl Default for EngineStats {
    fn default() -> (s: Self)
        ensures
            s.queue_depth == 0 && s.free_blocks == 0 && s.total_blocks == 0,
    {
        EngineStats { queue_depth: 0, free_blocks: 0, total_blocks: 0 }
    }
}

/// Abstract state of a [`KvCacheState`].
pub struct EpochModel {
    pub kv_epoch: u64,
    pub was_ready: bool,
    pub saw_ready: bool,
    pub last_free: u32,
    pub last_total: u32,
}

/// Free-block increase that counts as a pool reset: a sixth of the
/// pool, but at least 32 blocks.
pub open spec fn jump_threshold(total: u32) -> int {
    if total / 6 >= 32 {
        (total / 6) as int
    } else {
        32
    }
}

/// Number of reset signals one observation raises.
pub open spec fn resets_seen(s: EpochModel, ready: bool, stats: EngineStats) -> nat {
    let went_offline: nat = if s.saw_ready && s.was_ready && !ready { 1 } else { 0 };
    let restarted: nat = if ready && s.saw_ready && !s.was_ready { 1 } else { 0 };
    let resized: nat = if ready && stats.total_blocks > 0 && s.last_total > 0 && stats.total_blocks
        != s.last_total {
        1
    } else {
        0
    };
    let jumped: nat = if ready && stats.total_blocks > 0 && s.last_total > 0 && s.last_free > 0
        && stats.free_blocks - s.last_free >= jump_threshold(stats.total_blocks) {
        1
    } else {
        0
    };
    went_offline + restarted + resized + jumped
}

/// State after one observation: the epoch rises by the number of reset
/// signals (saturating), and the last ready gauges are remembered.
pub open spec fn observe_model(s: EpochModel, ready: bool, stats: EngineStats) -> EpochModel {
    let bumped = s.kv_epoch + resets_seen(s, ready, stats);
    EpochModel {
        kv_epoch: if bumped > u64::MAX { u64::MAX } else { bumped as u64 },
        was_ready: ready,
        saw_ready: s.saw_ready || ready,
        last_free: if ready { stats.free_blocks } else { s.last_free },
        last_total: if ready { stats.total_blocks } else { s.last_total },
    }
}

/// Tracks the engine's readiness and KV gauges across heartbeats.
#[derive(Debug)]
pub struct KvCacheState {
    kv_epoch: u64,
    was_ready: bool,
    saw_ready: bool,
    last_free: u32,
    last_total: u32,
}

impl View for KvCacheState {
    type V = EpochModel;

    closed spec fn view(&self) -> EpochModel {
        EpochModel {
            kv_epoch: self.kv_epoch,
            was_ready: self.was_ready,
            saw_ready: self.saw_ready,
            last_free: self.last_free,
            last_total: self.last_total,
        }
    }
}

impl Default for KvCacheState {
    fn default() -> (s: Self)
        ensures
            s@ == (EpochModel {
                kv_epoch: 0,
                was_ready: false,
                saw_ready: false,
                last_free: 0,
                last_total: 0,
            }),
    {
        KvCacheState { kv_epoch: 0, was_ready: false, saw_ready: false, last_free: 0, last_total: 0 }
    }
}

impl KvCacheState {
    /// Fold one heartbeat observation into the state and return the
    /// (possibly bumped) epoch.
    pub fn observe(&mut self, ready: bool, stats: &EngineStats) -> (epoch: u64)
        ensures
            final(self)@ == observe_model(old(self)@, ready, *stats),
            epoch == final(self)@.kv_epoch,
            epoch >= old(self)@.kv_epoch,
    {
        let ghost start = self@;
        let ghost mut count: nat = 0;
        if self.saw_ready && self.was_ready && !ready {
            self.bump();
            proof {
                count = count + 1;
            }
        }
        if ready {
            if self.saw_ready && !self.was_ready {
                self.bump();
                proof {
                    count = count + 1;
                }
            }
            if stats.total_blocks > 0 {
                if self.last_total > 0 && stats.total_blocks != self.last_total {
                    self.bump();
                    proof {
                        count = count + 1;
                    }
                }
                if self.last_total > 0 && self.last_free > 0 {
                    let delta = stats.free_blocks as i64 - self.last_free as i64;
                    let sixth = stats.total_blocks / 6;
                    let threshold: i64 = if sixth >= 32 { sixth as i64 } else { 32 };
                    if delta >= threshold {
                        self.bump();
                        proof {
                            count = count + 1;
                        }
                    }
                }
            }
            self.saw_ready = true;
            self.last_free = stats.free_blocks;
            self.last_total = stats.total_blocks;
        }
        self.was_ready = ready;
        assert(count == resets_seen(start, ready, *stats));
        self.kv_epoch
    }

    /// Raise the epoch by one, saturating at the top of the range.
    fn bump(&mut self)
        ensures
            final(self)@ == (EpochModel {
                kv_epoch: if old(self)@.kv_epoch + 1 > u64::MAX {
                    u64::MAX
                } else {
                    (old(self)@.kv_epoch + 1) as u64
                },
                ..old(self)@
            }),
    {
        self.kv_epoch = self.kv_epoch.saturating_add(1);
    }
}

/// Between two ready heartbeats of a pool whose size did not change, the
/// epoch rises by one exactly when the free blocks grew by at least a
/// sixth of the pool, and by at least 32 blocks (once a non-empty pool
/// with free blocks was seen); a fall in free blocks, however large,
/// leaves it as it was, and the gauges seen are remembered.
pub proof fn law_epoch_rises_only_on_free_block_jump(s: EpochModel, stats: EngineStats)
    requires
        s.saw_ready,
        s.was_ready,
        stats.total_blocks == s.last_total,
        s.kv_epoch < u64::MAX,
    ensures
        observe_model(s, true, stats).kv_epoch == s.kv_epoch + if stats.total_blocks > 0 && s.last_free > 0
            && stats.free_blocks >= s.last_free + (if stats.total_blocks / 6 >= 32 {
            stats.total_blocks / 6
        } else {
            32u32
        }) {
            1int
        } else {
            0int
        },
        stats.free_blocks <= s.last_free ==> observe_model(s, true, stats).kv_epoch == s.kv_epoch,
        observe_model(s, true, stats).last_free == stats.free_blocks,
        observe_model(s, true, stats).last_total == stats.total_blocks,
{
}

/// The first ready heartbeat of a fresh state raises nothing; it only
/// remembers the gauges.
pub proof fn law_first_ready_keeps_epoch(stats: EngineStats)
    ensures
        ({
            let fresh = EpochModel { kv_epoch: 0, was_ready: false, saw_ready: false, last_free: 0, last_total: 0 };
            let after = observe_model(fresh, true, stats);
            &&& after.kv_epoch == 0
            &&& after.saw_ready && after.was_ready
            &&& after.last_free == stats.free_blocks && after.last_total == stats.total_blocks
        }),
{
}

/// A not-ready heartbeat raises the epoch by one exactly when the engine
/// was ready at the previous heartbeat (after having been seen ready), and
/// forgets nothing of the gauges.
pub proof fn law_offline_raises_once(s: EpochModel, stats: EngineStats)
    requires
        s.kv_epoch < u64::MAX,
    ensures
        observe_model(s, false, stats).kv_epoch == s.kv_epoch + if s.saw_ready && s.was_ready {
            1int
        } else {
            0int
        },
        observe_model(s, false, stats).last_free == s.last_free,
        observe_model(s, false, stats).last_total == s.last_total,
        !observe_model(s, false, stats).was_ready,
        observe_model(s, false, stats).saw_ready == s.saw_ready,
{
}

/// A ready heartbeat after a not-ready one, once the engine was seen
/// ready before, is a restart: the epoch rises.
pub proof fn law_restart_raises(s: EpochModel, stats: EngineStats)
    requires
        s.saw_ready,
        !s.was_ready,
        s.kv_epoch + 3 <= u64::MAX,
    ensures
        observe_model(s, true, stats).kv_epoch > s.kv_epoch,
{
}

/// A ready heartbeat after a ready one that reports a different non-zero
/// pool size than the last non-zero one raises the epoch.
pub proof fn law_resize_raises(s: EpochModel, stats: EngineStats)
    requires
        s.saw_ready,
        s.was_ready,
        s.last_total > 0,
        stats.total_blocks > 0,
        stats.total_blocks != s.last_total,
        s.kv_epoch + 2 <= u64::MAX,
    ensures
        observe_model(s, true, stats).kv_epoch > s.kv_epoch,
{
}

/// The epoch never falls.
pub proof fn law_epoch_never_falls(s: EpochModel, ready: bool, stats: EngineStats)
    ensures
        observe_model(s, ready, stats).kv_epoch >= s.kv_epoch,
{
}

} // verus!
