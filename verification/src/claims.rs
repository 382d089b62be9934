//! Completion-confirmed KV claims.
//!
//! Once an engine has finished a generation it holds the KV cache of the
//! prompt's prefix, so the agent publishes every router-supplied prefix
//! digest as a lease-bound key `<prefix><node_id>/<hex digest>`. The
//! [`ClaimLedger`] remembers the keys this session has published, oldest
//! first: a key is never queued twice, and the oldest claims are the
//! ones withdrawn on hard-cap overflow or under KV-cache pressure.
use std::collections::VecDeque;

use vstd::prelude::*;

use crate::sse::{hex_bytes, hex_string};
use crate::text::{push_str, str_eq, string_from_chars};

verus! {

/// Cap on the lease-bound confirmed-KV keys one node keeps published.
pub const KV_CONFIRMED_MAX_KEYS: usize = 4096;

/// The key under which a confirmed digest is published.
pub open spec fn spec_claim_key(prefix: Seq<char>, node_id: Seq<char>, digest: Seq<u8>) -> Seq<char> {
    prefix + node_id + seq!['/'] + hex_bytes(digest)
}

/// The key `<prefix><node_id>/<hex digest>` of a confirmed digest; only
/// 32-byte digests are published.
pub fn claim_key(prefix: &str, node_id: &str, digest: &[u8]) -> (r: Option<String>)
    ensures
        digest@.len() != 32 ==> r is None,
        digest@.len() == 32 ==> (r matches Some(k) && k@ == spec_claim_key(prefix@, node_id@, digest@)),
{
    if digest.len() != 32 {
        return None;
    }
    let bytes = vstd::slice::slice_to_vec(digest);
    let hex = hex_string(&bytes);
    let mut v: Vec<char> = Vec::new();
    push_str(&mut v, prefix);
    push_str(&mut v, node_id);
    v.push('/');
    push_str(&mut v, hex.as_str());
    assert(v@ =~= spec_claim_key(prefix@, node_id@, digest@));
    Some(string_from_chars(v.as_slice()))
}

/// How many of the published keys may stay after an eviction pass:
/// half of them under KV pressure, the hard cap otherwise.
pub open spec fn spec_eviction_target(len: nat, under_pressure: bool) -> nat {
    if under_pressure {
        len / 2
    } else {
        KV_CONFIRMED_MAX_KEYS as nat
    }
}

/// Views of a sequence of keys.
pub open spec fn key_views(keys: Seq<String>) -> Seq<Seq<char>> {
    keys.map_values(|k: String| k@)
}

/// The keys published by this session, oldest first.
pub struct ClaimLedger {
    published: VecDeque<String>,
}

impl View for ClaimLedger {
    type V = Seq<Seq<char>>;

    closed spec fn view(&self) -> Seq<Seq<char>> {
        key_views(self.published@)
    }
}

impl ClaimLedger {
    /// No key is tracked twice.
    pub closed spec fn inv(&self) -> bool {
        self@.no_duplicates()
    }

    pub fn new() -> (l: Self)
        ensures
            l.inv(),
            l@ == Seq::<Seq<char>>::empty(),
    {
        let l = ClaimLedger { published: VecDeque::new() };
        assert(l@ =~= Seq::<Seq<char>>::empty());
        l
    }

    /// Number of keys currently tracked.
    pub fn len(&self) -> (n: usize)
        ensures
            n == self@.len(),
    {
        self.published.len()
    }

    /// Whether `key` is already tracked.
    pub fn is_tracked(&self, key: &str) -> (b: bool)
        ensures
            b == self@.contains(key@),
    {
        let mut i: usize = 0;
        while i < self.published.len()
            invariant
                i <= self@.len(),
                self@.len() == self.published@.len(),
                forall|j: int| 0 <= j < i ==> self@[j] != key@,
            decreases self@.len() - i,
        {
            assert(self@[i as int] == self.published@[i as int]@);
            if str_eq(self.published[i].as_str(), key) {
                return true;
            }
            i = i + 1;
        }
        false
    }

    /// Track a freshly published key; a key already tracked is not
    /// queued a second time. Returns whether the key was added.
    pub fn track(&mut self, key: String) -> (added: bool)
        requires
            old(self).inv(),
        ensures
            final(self).inv(),
            added == !old(self)@.contains(key@),
            final(self)@ == if added {
                old(self)@.push(key@)
            } else {
                old(self)@
            },
    {
        if self.is_tracked(key.as_str()) {
            return false;
        }
        let ghost k = key@;
        self.published.push_back(key);
        assert(self@ =~= old(self)@.push(k));
        assert forall|a: int, b: int| 0 <= a < b < self@.len() implies self@[a] != self@[b] by {
            if b == self@.len() - 1 {
                assert(old(self)@[a] == self@[a]);
            } else {
                assert(old(self)@[a] == self@[a]);
                assert(old(self)@[b] == self@[b]);
            }
        }
        true
    }

    /// How many keys may stay after this pass.
    pub fn eviction_target(&self, under_pressure: bool) -> (t: usize)
        ensures
            t == spec_eviction_target(self@.len(), under_pressure),
    {
        if under_pressure {
            self.published.len() / 2
        } else {
            KV_CONFIRMED_MAX_KEYS
        }
    }

    /// Withdraw the oldest key while more than `target` are tracked.
    pub fn pop_oldest_over(&mut self, target: usize) -> (r: Option<String>)
        requires
            old(self).inv(),
        ensures
            final(self).inv(),
            old(self)@.len() > target ==> (r matches Some(k) && k@ == old(self)@[0]
                && final(self)@ == old(self)@.drop_first()),
            old(self)@.len() <= target ==> r is None && final(self)@ == old(self)@,
    {
        if self.published.len() <= target {
            return None;
        }
        let ghost before = self.published@;
        let k = self.published.pop_front();
        assert(self.published@ =~= before.drop_first());
        assert(self@ =~= old(self)@.drop_first());
        assert forall|a: int, b: int| 0 <= a < b < self@.len() implies self@[a] != self@[b] by {
            assert(old(self)@[a + 1] == self@[a]);
            assert(old(self)@[b + 1] == self@[b]);
        }
        k
    }
}

/// What an eviction pass leaves: the keys past the first `len - target`.
pub open spec fn after_eviction(keys: Seq<Seq<char>>, target: nat) -> Seq<Seq<char>> {
    if keys.len() > target {
        keys.skip(keys.len() - target)
    } else {
        keys
    }
}

/// Withdrawing the oldest key while more than `target` are tracked, until
/// none is withdrawn, leaves exactly the newest `target` keys (all of
/// them when there are no more), in their order.
pub proof fn law_eviction_keeps_newest(keys: Seq<Seq<char>>, target: nat)
    ensures
        keys.len() > target ==> after_eviction(keys, target) == after_eviction(keys.drop_first(), target),
        keys.len() > target ==> after_eviction(keys, target).len() == target,
        keys.len() <= target ==> after_eviction(keys, target) == keys,
{
    if keys.len() > target {
        let d = keys.drop_first();
        if d.len() > target {
            assert(keys.skip(keys.len() - target) =~= d.skip(d.len() - target));
        } else {
            assert(keys.skip(keys.len() - target) =~= d);
        }
    }
}

/// Tracking a key twice queues it once.
pub proof fn law_track_twice_queues_once(keys: Seq<Seq<char>>, key: Seq<char>)
    requires
        keys.no_duplicates(),
    ensures
        ({
            let once = if keys.contains(key) { keys } else { keys.push(key) };
            let twice = if once.contains(key) { once } else { once.push(key) };
            twice == once && once.no_duplicates()
        }),
{
    if !keys.contains(key) {
        let once = keys.push(key);
        assert(once[once.len() - 1] == key);
        assert(once.contains(key));
        assert forall|a: int, b: int| 0 <= a < b < once.len() implies once[a] != once[b] by {
            if b == once.len() - 1 {
                assert(keys[a] == once[a]);
            }
        }
    }
}

} // verus!
