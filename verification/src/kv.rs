//! Per-request KV cache bookkeeping and block-hash prefix reuse.
//!
//! Prompts are chunked into fixed-size token blocks and hashed with
//! BLAKE3 chained over the prefix, so a block hash identifies the whole
//! prefix up to and including that block. [`PrefixCache`] answers how
//! many leading blocks of a prompt are already resident; [`KvPool`]
//! accounts paged KV blocks for the continuous-batching scheduler.
use vstd::prelude::*;

use crate::digest::{chained_digest, hash_block};
use crate::tally::{lemma_map_sum_empty, lemma_map_sum_insert, lemma_map_sum_nonneg, map_sum};

verus! {

broadcast use vstd::std_specs::hash::group_hash_axioms;

/// Tokens per KV block.
pub const BLOCK_TOKENS: usize = 16;

/// Chained BLAKE3 hash of a token block.
pub type BlockHash = [u8; 32];

/// Tokens of block `i` (the `i`-th run of `BLOCK_TOKENS` tokens).
pub open spec fn block_tokens(tokens: Seq<u32>, i: int) -> Seq<u32> {
    tokens.subrange(16 * i, 16 * i + 16)
}

/// Digest of block `i` of `tokens`, chained over all earlier blocks.
pub open spec fn block_digest_at(tokens: Seq<u32>, i: nat) -> Seq<u8>
    decreases i,
{
    if i == 0 {
        chained_digest(None, block_tokens(tokens, 0))
    } else {
        chained_digest(Some(block_digest_at(tokens, (i - 1) as nat)), block_tokens(tokens, i as int))
    }
}

/// Digests of every complete block of `tokens`; the shorter tail is not hashed.
pub open spec fn spec_block_hashes(tokens: Seq<u32>) -> Seq<Seq<u8>> {
    Seq::new(tokens.len() / 16, |i: int| block_digest_at(tokens, i as nat))
}

/// Hash every complete block of a token sequence (the tail shorter
/// than `BLOCK_TOKENS` is not hashed — it is never reusable).
pub fn block_hashes(tokens: &[u32]) -> (out: Vec<BlockHash>)
    ensures
        out@.len() == tokens@.len() / 16,
        forall|i: int| 0 <= i < out@.len() ==> #[trigger] out@[i]@ == spec_block_hashes(tokens@)[i],
{
    let n = tokens.len() / BLOCK_TOKENS;
    let mut out: Vec<BlockHash> = Vec::new();
    let mut i: usize = 0;
    while i < n
        invariant
            n == tokens.len() / 16,
            i <= n,
            out@.len() == i,
            forall|j: int| 0 <= j < i ==> #[trigger] out@[j]@ == block_digest_at(tokens@, j as nat),
        decreases n - i,
    {
        proof {
            lemma_block_tokens_fit(i + 1, tokens.len() as int);
        }
        let start = i * BLOCK_TOKENS;
        let chunk = &tokens[start..start + BLOCK_TOKENS];
        assert(chunk@ == block_tokens(tokens@, i as int));
        let h = if i == 0 {
            hash_block(None, chunk)
        } else {
            let parent = out[i - 1];
            hash_block(Some(&parent), chunk)
        };
        out.push(h);
        i = i + 1;
    }
    out
}

/// Digest sequence of a chain of stored block hashes.
pub open spec fn chain_view(chain: Seq<BlockHash>) -> Seq<Seq<u8>> {
    chain.map_values(|h: BlockHash| h@)
}

/// The lookup table built by inserting each digest of `chain`, in order,
/// mapped to its 1-based depth (a later equal digest overwrites an earlier one).
pub open spec fn depth_index(chain: Seq<Seq<u8>>) -> Map<Seq<u8>, nat>
    decreases chain.len(),
{
    if chain.len() == 0 {
        Map::empty()
    } else {
        depth_index(chain.drop_last()).insert(chain.last(), chain.len())
    }
}

/// The first `k` digests of `hashes` are resident at depths 1..=k.
pub open spec fn leading_resident(resident: Map<Seq<u8>, nat>, hashes: Seq<Seq<u8>>, k: int) -> bool {
    &&& 0 <= k <= hashes.len()
    &&& forall|i: int|
        0 <= i < k ==> resident.contains_key(#[trigger] hashes[i]) && resident[hashes[i]] == i + 1
}

/// `k` is the length of the longest resident leading chain of `hashes`.
pub open spec fn longest_resident(resident: Map<Seq<u8>, nat>, hashes: Seq<Seq<u8>>, k: int) -> bool {
    &&& leading_resident(resident, hashes, k)
    &&& (k < hashes.len() ==> !(resident.contains_key(hashes[k]) && resident[hashes[k]] == k + 1))
}

/// Tracks which prefix blocks are resident in the engine's KV cache.
/// Residency (hash to chain length) is a map of its view; it is held as
/// the chain itself, looked up from its latest occurrence, because the
/// hash-map specification covers integer keys only, not 32-byte hashes.
pub struct PrefixCache {
    /// Block hashes of the cached chain, in order.
    chain: Vec<BlockHash>,
    /// Total tokens currently held in the engine KV cache.
    cached_tokens: usize,
}

/// Result of a prefix lookup.
#[derive(Debug, PartialEq, Eq, Structural)]
pub struct PrefixMatch {
    /// Number of leading prompt tokens whose KV state is resident.
    pub tokens: usize,
    /// Number of whole blocks matched.
    pub blocks: usize,
}

/// Index of the last occurrence of `h` in `chain` within `[0, n)`.
pub open spec fn last_occurrence(chain: Seq<Seq<u8>>, h: Seq<u8>, n: int) -> int
    decreases n,
{
    if n <= 0 {
        -1
    } else if chain[n - 1] == h {
        n - 1
    } else {
        last_occurrence(chain, h, n - 1)
    }
}

proof fn lemma_depth_index_lookup(chain: Seq<Seq<u8>>, h: Seq<u8>)
    ensures
        depth_index(chain).contains_key(h) <==> last_occurrence(chain, h, chain.len() as int) >= 0,
        depth_index(chain).contains_key(h) ==> depth_index(chain)[h] == last_occurrence(
            chain,
            h,
            chain.len() as int,
        ) + 1,
    decreases chain.len(),
{
    if chain.len() > 0 {
        let d = chain.drop_last();
        lemma_depth_index_lookup(d, h);
        assert forall|n: int| 0 <= n <= d.len() implies last_occurrence(d, h, n) == last_occurrence(
            chain,
            h,
            n,
        ) by {
            lemma_last_occurrence_prefix(d, chain, h, n);
        }
    }
}

proof fn lemma_last_occurrence_prefix(a: Seq<Seq<u8>>, b: Seq<Seq<u8>>, h: Seq<u8>, n: int)
    requires
        0 <= n <= a.len(),
        n <= b.len(),
        forall|i: int| 0 <= i < n ==> a[i] == b[i],
    ensures
        last_occurrence(a, h, n) == last_occurrence(b, h, n),
    decreases n,
{
    if n > 0 {
        lemma_last_occurrence_prefix(a, b, h, n - 1);
    }
}

proof fn lemma_block_tokens_fit(blocks: int, len: int)
    requires
        0 <= blocks <= len / 16,
        0 <= len,
    ensures
        blocks * 16 <= len,
{
    assert(blocks * 16 <= (len / 16) * 16) by (nonlinear_arith)
        requires
            0 <= blocks <= len / 16,
    ;
}

fn same_hash(a: &BlockHash, b: &BlockHash) -> (eq: bool)
    ensures
        eq == (a@ == b@),
{
    let mut j: usize = 0;
    while j < 32
        invariant
            j <= 32,
            forall|k: int| 0 <= k < j ==> a@[k] == b@[k],
        decreases 32 - j,
    {
        if a[j] != b[j] {
            return false;
        }
        j = j + 1;
    }
    assert(a@ =~= b@);
    true
}

impl PrefixCache {
    /// Lookup table of resident digests to their 1-based depth.
    pub closed spec fn resident(&self) -> Map<Seq<u8>, nat> {
        depth_index(chain_view(self.chain@))
    }

    /// Tokens recorded as held by the engine.
    pub closed spec fn spec_cached_tokens(&self) -> nat {
        self.cached_tokens as nat
    }

    pub fn new() -> (c: Self)
        ensures
            c.resident() == Map::<Seq<u8>, nat>::empty(),
            c.spec_cached_tokens() == 0,
    {
        let c = PrefixCache { chain: Vec::new(), cached_tokens: 0 };
        assert(chain_view(c.chain@) =~= Seq::<Seq<u8>>::empty());
        c
    }

    /// Depth of `h` in the resident table, if present.
    fn depth_of(&self, h: &BlockHash) -> (d: Option<usize>)
        ensures
            match d {
                Some(d) => self.resident().contains_key(h@) && self.resident()[h@] == d,
                None => !self.resident().contains_key(h@),
            },
    {
        let ghost cv = chain_view(self.chain@);
        let mut n = self.chain.len();
        while n > 0
            invariant
                n <= self.chain@.len(),
                cv == chain_view(self.chain@),
                last_occurrence(cv, h@, cv.len() as int) == last_occurrence(cv, h@, n as int),
            decreases n,
        {
            if same_hash(&self.chain[n - 1], h) {
                assert(cv[n - 1] == self.chain@[n - 1]@);
                assert(last_occurrence(cv, h@, n as int) == n - 1);
                proof {
                    lemma_depth_index_lookup(cv, h@);
                }
                return Some(n);
            }
            assert(cv[n - 1] == self.chain@[n - 1]@);
            n = n - 1;
        }
        proof {
            lemma_depth_index_lookup(cv, h@);
        }
        None
    }

    /// Longest chain of leading blocks of `prompt` that is resident.
    pub fn match_prefix(&self, prompt: &[u32]) -> (m: PrefixMatch)
        ensures
            longest_resident(self.resident(), spec_block_hashes(prompt@), m.blocks as int),
            m.tokens == m.blocks * 16,
    {
        let hashes = block_hashes(prompt);
        let ghost hs = spec_block_hashes(prompt@);
        let mut blocks: usize = 0;
        let mut i: usize = 0;
        while i < hashes.len()
            invariant
                hashes@.len() == hs.len(),
                hs == spec_block_hashes(prompt@),
                hs.len() == prompt.len() / 16,
                forall|j: int| 0 <= j < hashes@.len() ==> #[trigger] hashes@[j]@ == hs[j],
                blocks == i,
                i <= hashes@.len(),
                leading_resident(self.resident(), hs, i as int),
            decreases hashes@.len() - i,
        {
            let h = &hashes[i];
            assert(h@ == hs[i as int]);
            let d = self.depth_of(h);
            let hit = match d {
                Some(x) => x == i + 1,
                None => false,
            };
            if hit {
                blocks = i + 1;
                i = i + 1;
            } else {
                proof {
                    lemma_block_tokens_fit(blocks as int, prompt.len() as int);
                }
                return PrefixMatch { tokens: blocks * BLOCK_TOKENS, blocks };
            }
        }
        proof {
            lemma_block_tokens_fit(blocks as int, prompt.len() as int);
        }
        PrefixMatch { tokens: blocks * BLOCK_TOKENS, blocks }
    }

    /// Record that the engine KV cache now holds exactly `tokens`
    /// (prompt + generated so far). Replaces the previous chain.
    pub fn record(&mut self, tokens: &[u32])
        ensures
            final(self).resident() == depth_index(spec_block_hashes(tokens@)),
            final(self).spec_cached_tokens() == tokens@.len(),
    {
        let hashes = block_hashes(tokens);
        assert(chain_view(hashes@) =~= spec_block_hashes(tokens@));
        self.chain = hashes;
        self.cached_tokens = tokens.len();
    }

    /// Drop all state (engine KV cache was cleared).
    pub fn clear(&mut self)
        ensures
            final(self).resident() == Map::<Seq<u8>, nat>::empty(),
            final(self).spec_cached_tokens() == 0,
    {
        self.chain = Vec::new();
        self.cached_tokens = 0;
        assert(chain_view(self.chain@) =~= Seq::<Seq<u8>>::empty());
    }

    pub fn cached_tokens(&self) -> (n: usize)
        ensures
            n == self.spec_cached_tokens(),
    {
        self.cached_tokens
    }
}


/// Blocks needed to hold `tokens` positions (rounded up).
pub open spec fn spec_blocks_for(tokens: nat) -> nat {
    ((tokens + 15) / 16) as nat
}

/// Abstract state of a [`KvPool`]: its budget, the blocks in use, and
/// the blocks each sequence holds.
pub struct PoolModel {
    pub total: nat,
    pub used: nat,
    pub held: Map<u64, usize>,
}

impl PoolModel {
    /// Blocks currently held by `seq` (0 when it holds none).
    pub open spec fn held_by(self, seq: u64) -> nat {
        if self.held.contains_key(seq) {
            self.held[seq] as nat
        } else {
            0
        }
    }

    /// Blocks not held by any sequence.
    pub open spec fn free(self) -> int {
        self.total - self.used
    }

    /// The accounting invariant: `used` is the sum of the holdings and
    /// never exceeds the budget.
    pub open spec fn well_formed(self) -> bool {
        &&& self.held.dom().finite()
        &&& self.used == map_sum(self.held)
        &&& self.used <= self.total
    }

    /// Grow `seq`'s reservation to cover `tokens` positions; on failure
    /// (not enough free blocks) the state is unchanged.
    pub open spec fn reserve(self, seq: u64, tokens: usize) -> (PoolModel, bool) {
        let want = spec_blocks_for(tokens as nat);
        let have = self.held_by(seq);
        if want <= have {
            (self, true)
        } else if want - have > self.free() {
            (self, false)
        } else {
            (
                PoolModel {
                    total: self.total,
                    used: (self.used + (want - have)) as nat,
                    held: self.held.insert(seq, want as usize),
                },
                true,
            )
        }
    }

    /// Release everything held by `seq`.
    pub open spec fn release(self, seq: u64) -> PoolModel {
        if self.held.contains_key(seq) {
            PoolModel {
                total: self.total,
                used: (self.used - self.held[seq]) as nat,
                held: self.held.remove(seq),
            }
        } else {
            self
        }
    }
}

/// Paged KV block accounting for the continuous-batching scheduler.
#[derive(Debug)]
pub struct KvPool {
    total_blocks: usize,
    used_blocks: usize,
    /// seq id → blocks currently held.
    held: std::collections::HashMap<u64, usize>,
}

impl View for KvPool {
    type V = PoolModel;

    closed spec fn view(&self) -> PoolModel {
        PoolModel { total: self.total_blocks as nat, used: self.used_blocks as nat, held: self.held@ }
    }
}

impl KvPool {
    /// The pool's accounting invariant holds.
    pub closed spec fn inv(&self) -> bool {
        &&& self@.well_formed()
        &&& forall|k: u64| #[trigger] self.held@.contains_key(k) ==> self.held@[k] <= self.total_blocks
    }

    pub fn new(total_blocks: usize) -> (p: Self)
        ensures
            p.inv(),
            p@ == (PoolModel { total: total_blocks as nat, used: 0, held: Map::empty() }),
    {
        let p = KvPool { total_blocks, used_blocks: 0, held: std::collections::HashMap::new() };
        proof {
            lemma_map_sum_empty();
        }
        p
    }

    /// Blocks needed to hold `tokens` positions.
    pub fn blocks_for(tokens: usize) -> (b: usize)
        ensures
            b == spec_blocks_for(tokens as nat),
    {
        tokens / BLOCK_TOKENS + if tokens % BLOCK_TOKENS != 0 { 1 } else { 0 }
    }

    pub fn free_blocks(&self) -> (f: usize)
        requires
            self.inv(),
        ensures
            f == self@.free(),
    {
        self.total_blocks - self.used_blocks
    }

    pub fn used_blocks(&self) -> (u: usize)
        ensures
            u == self@.used,
    {
        self.used_blocks
    }

    pub fn total_blocks(&self) -> (t: usize)
        ensures
            t == self@.total,
    {
        self.total_blocks
    }

    /// Blocks currently held by `seq`.
    pub fn held_by(&self, seq: u64) -> (b: usize)
        ensures
            b == self@.held_by(seq),
    {
        match self.held.get(&seq) {
            Some(b) => *b,
            None => 0,
        }
    }

    /// Grow (or create) `seq`'s reservation so it covers `tokens`
    /// positions. Returns `false` — with no state change — if the pool
    /// cannot satisfy the growth.
    pub fn reserve(&mut self, seq: u64, tokens: usize) -> (ok: bool)
        requires
            old(self).inv(),
        ensures
            final(self).inv(),
            (final(self)@, ok) == old(self)@.reserve(seq, tokens),
    {
        let want = Self::blocks_for(tokens);
        let have = self.held_by(seq);
        if want <= have {
            return true;
        }
        let extra = want - have;
        if extra > self.free_blocks() {
            return false;
        }
        proof {
            lemma_map_sum_insert(self.held@, seq, want);
            lemma_map_sum_nonneg(self.held@.remove(seq));
        }
        self.used_blocks = self.used_blocks + extra;
        self.held.insert(seq, want);
        assert(self.held@.dom().finite());
        true
    }

    /// Release everything held by `seq`.
    pub fn release(&mut self, seq: u64)
        requires
            old(self).inv(),
        ensures
            final(self).inv(),
            final(self)@ == old(self)@.release(seq),
    {
        proof {
            lemma_map_sum_insert(self.held@, seq, 0);
            lemma_map_sum_nonneg(self.held@.remove(seq));
        }
        match self.held.remove(&seq) {
            Some(blocks) => {
                self.used_blocks = self.used_blocks - blocks;
            },
            None => {
                assert(old(self).held@.remove(seq) =~= old(self).held@);
            },
        }
    }
}


proof fn lemma_last_occurrence_unique(chain: Seq<Seq<u8>>, i: int, n: int)
    requires
        chain.no_duplicates(),
        0 <= i < n <= chain.len(),
    ensures
        last_occurrence(chain, chain[i], n) == i,
    decreases n,
{
    if n - 1 != i {
        assert(chain[n - 1] != chain[i]);
        lemma_last_occurrence_unique(chain, i, n - 1);
    }
}

/// With distinct digests, each digest of a recorded chain sits at its own depth.
proof fn lemma_depth_index_distinct(chain: Seq<Seq<u8>>, i: int)
    requires
        chain.no_duplicates(),
        0 <= i < chain.len(),
    ensures
        depth_index(chain).contains_key(chain[i]),
        depth_index(chain)[chain[i]] == i + 1,
{
    lemma_last_occurrence_unique(chain, i, chain.len() as int);
    lemma_depth_index_lookup(chain, chain[i]);
}

/// A block digest identifies the whole prefix up to and including its
/// block: two token sequences that agree on their first `i + 1` blocks
/// have the same digest at block `i`.
pub proof fn law_block_digest_depends_only_on_prefix(a: Seq<u32>, b: Seq<u32>, i: nat)
    requires
        16 * (i + 1) <= a.len(),
        16 * (i + 1) <= b.len(),
        a.take(16 * (i + 1) as int) == b.take(16 * (i + 1) as int),
    ensures
        block_digest_at(a, i) == block_digest_at(b, i),
    decreases i,
{
    assert(block_tokens(a, i as int) =~= block_tokens(b, i as int)) by {
        assert forall|j: int| 0 <= j < 16 implies block_tokens(a, i as int)[j] == block_tokens(
            b,
            i as int,
        )[j] by {
            assert(block_tokens(a, i as int)[j] == a[16 * i + j]);
            assert(block_tokens(b, i as int)[j] == b[16 * i + j]);
            assert(a.take(16 * (i + 1) as int)[16 * i + j] == a[16 * i + j]);
            assert(b.take(16 * (i + 1) as int)[16 * i + j] == b[16 * i + j]);
        }
    }
    if i > 0 {
        let k = (i - 1) as nat;
        assert(a.take(16 * (k + 1) as int) =~= a.take(16 * (i + 1) as int).take(16 * (k + 1) as int));
        assert(b.take(16 * (k + 1) as int) =~= b.take(16 * (i + 1) as int).take(16 * (k + 1) as int));
        law_block_digest_depends_only_on_prefix(a, b, k);
    }
}

/// Recording a sequence and then looking it up finds every complete
/// block resident, provided its block digests are pairwise distinct
/// (a repeated digest would be a BLAKE3 collision).
pub proof fn law_record_then_match_is_full(tokens: Seq<u32>)
    requires
        spec_block_hashes(tokens).no_duplicates(),
    ensures
        longest_resident(
            depth_index(spec_block_hashes(tokens)),
            spec_block_hashes(tokens),
            spec_block_hashes(tokens).len() as int,
        ),
{
    let h = spec_block_hashes(tokens);
    assert forall|i: int| 0 <= i < h.len() implies depth_index(h).contains_key(#[trigger] h[i])
        && depth_index(h)[h[i]] == i + 1 by {
        lemma_depth_index_distinct(h, i);
    }
}

/// After recording `cached`, a prompt that shares its first `k` complete
/// blocks with it matches at least `k` blocks.
pub proof fn law_shared_prefix_is_reused(cached: Seq<u32>, prompt: Seq<u32>, k: nat, m: int)
    requires
        spec_block_hashes(cached).no_duplicates(),
        16 * k <= cached.len(),
        16 * k <= prompt.len(),
        cached.take(16 * k as int) == prompt.take(16 * k as int),
        longest_resident(depth_index(spec_block_hashes(cached)), spec_block_hashes(prompt), m),
    ensures
        m >= k,
{
    let hc = spec_block_hashes(cached);
    let hp = spec_block_hashes(prompt);
    assert(k <= cached.len() / 16) by (nonlinear_arith)
        requires
            16 * k <= cached.len(),
    ;
    assert(k <= prompt.len() / 16) by (nonlinear_arith)
        requires
            16 * k <= prompt.len(),
    ;
    assert forall|i: int| 0 <= i < k implies hp[i] == hc[i] by {
        let n = i as nat;
        assert(cached.take(16 * (n + 1) as int) =~= cached.take(16 * k as int).take(16 * (n + 1) as int));
        assert(prompt.take(16 * (n + 1) as int) =~= prompt.take(16 * k as int).take(16 * (n + 1) as int));
        law_block_digest_depends_only_on_prefix(cached, prompt, n);
    }
    if m < k {
        lemma_depth_index_distinct(hc, m);
        assert(hp[m] == hc[m]);
    }
}

/// With nothing recorded, no prompt matches any block.
pub proof fn law_empty_cache_matches_nothing(prompt: Seq<u32>, m: int)
    requires
        longest_resident(Map::<Seq<u8>, nat>::empty(), spec_block_hashes(prompt), m),
    ensures
        m == 0,
{
    if m > 0 {
        assert(Map::<Seq<u8>, nat>::empty().contains_key(spec_block_hashes(prompt)[0]));
    }
}

/// Reserving keeps the pool's accounting invariant.
pub proof fn law_reserve_keeps_accounting(p: PoolModel, seq: u64, tokens: usize)
    requires
        p.well_formed(),
    ensures
        p.reserve(seq, tokens).0.well_formed(),
        p.reserve(seq, tokens).0.total == p.total,
{
    let want = spec_blocks_for(tokens as nat);
    if want > p.held_by(seq) && want - p.held_by(seq) <= p.free() {
        lemma_map_sum_insert(p.held, seq, want as usize);
        lemma_map_sum_nonneg(p.held.remove(seq));
    }
}

/// Releasing keeps the pool's accounting invariant.
pub proof fn law_release_keeps_accounting(p: PoolModel, seq: u64)
    requires
        p.well_formed(),
    ensures
        p.release(seq).well_formed(),
        p.release(seq).total == p.total,
        p.release(seq).held_by(seq) == 0,
{
    lemma_map_sum_insert(p.held, seq, 0);
    lemma_map_sum_nonneg(p.held.remove(seq));
}

/// A reservation that fails leaves the pool exactly as it was; one that
/// succeeds covers the requested positions.
pub proof fn law_reserve_outcome(p: PoolModel, seq: u64, tokens: usize)
    requires
        p.well_formed(),
    ensures
        !p.reserve(seq, tokens).1 ==> p.reserve(seq, tokens).0 == p,
        p.reserve(seq, tokens).1 ==> p.reserve(seq, tokens).0.held_by(seq) >= spec_blocks_for(
            tokens as nat,
        ),
        p.reserve(seq, tokens).1 <==> spec_blocks_for(tokens as nat) <= p.held_by(seq) + p.free(),
{
    assert(spec_blocks_for(tokens as nat) <= usize::MAX);
}

/// Releasing a sequence right after its first reservation returns the
/// pool to its earlier state.
pub proof fn law_release_undoes_fresh_reserve(p: PoolModel, seq: u64, tokens: usize)
    requires
        p.well_formed(),
        !p.held.contains_key(seq),
        p.reserve(seq, tokens).1,
    ensures
        p.reserve(seq, tokens).0.release(seq) == p,
{
    let q = p.reserve(seq, tokens).0;
    let want = spec_blocks_for(tokens as nat);
    assert(want <= usize::MAX);
    if want > 0 {
        assert(q.held.contains_key(seq));
        assert(q.held[seq] == want);
        assert(q.held.remove(seq) =~= p.held);
    }
}

/// Whatever reservations and releases a pool has seen since `new`, the
/// blocks in use are exactly the sum of what each sequence holds, and
/// they never exceed the budget (so the free count never underflows).
pub proof fn law_used_is_sum_of_holdings(p: &KvPool)
    requires
        p.inv(),
    ensures
        p@.held.dom().finite(),
        p@.used == map_sum(p@.held),
        p@.used <= p@.total,
        p@.free() == p@.total - p@.used,
        p@.free() >= 0,
{
}

proof fn lemma_last_occurrence_hit(chain: Seq<Seq<u8>>, h: Seq<u8>, n: int)
    requires
        n <= chain.len(),
    ensures
        last_occurrence(chain, h, n) >= 0 ==> 0 <= last_occurrence(chain, h, n) < n && chain[last_occurrence(
            chain,
            h,
            n,
        )] == h,
    decreases n,
{
    if n > 0 && chain[n - 1] != h {
        lemma_last_occurrence_hit(chain, h, n - 1);
    }
}

/// With BLAKE3 taken as collision-free on the blocks compared (equal
/// chained digests mean equal token prefixes), a prompt looked up after
/// `cached` was recorded matches exactly the longest run of whole leading
/// blocks it shares with `cached`: those blocks are equal, and one more
/// block is not.
pub proof fn law_match_is_longest_common_prefix(cached: Seq<u32>, prompt: Seq<u32>, m: int)
    requires
        spec_block_hashes(cached).no_duplicates(),
        longest_resident(depth_index(spec_block_hashes(cached)), spec_block_hashes(prompt), m),
        forall|i: nat|
            16 * (i + 1) <= prompt.len() && 16 * (i + 1) <= cached.len() && #[trigger] block_digest_at(prompt, i)
                == block_digest_at(cached, i) ==> prompt.take(16 * (i + 1) as int) == cached.take(
                16 * (i + 1) as int,
            ),
    ensures
        16 * m <= prompt.len(),
        16 * m <= cached.len(),
        prompt.take(16 * m) == cached.take(16 * m),
        16 * (m + 1) <= prompt.len() && 16 * (m + 1) <= cached.len() ==> prompt.take(16 * (m + 1))
            != cached.take(16 * (m + 1)),
{
    let hc = spec_block_hashes(cached);
    let hp = spec_block_hashes(prompt);
    assert(m <= prompt.len() / 16);
    assert(16 * m <= prompt.len()) by (nonlinear_arith)
        requires
            0 <= m <= prompt.len() / 16,
    ;
    if m > 0 {
        let x = hp[m - 1];
        assert(depth_index(hc).contains_key(x) && depth_index(hc)[x] == m);
        lemma_depth_index_lookup(hc, x);
        lemma_last_occurrence_hit(hc, x, hc.len() as int);
        assert(hc[m - 1] == x);
        assert(m <= cached.len() / 16);
        assert(16 * m <= cached.len()) by (nonlinear_arith)
            requires
                0 <= m <= cached.len() / 16,
        ;
        let i = (m - 1) as nat;
        assert(block_digest_at(prompt, i) == block_digest_at(cached, i));
        assert(prompt.take(16 * (i + 1) as int) == cached.take(16 * (i + 1) as int));
    } else {
        assert(prompt.take(0) =~= cached.take(0));
    }
    if 16 * (m + 1) <= prompt.len() && 16 * (m + 1) <= cached.len() && prompt.take(16 * (m + 1)) == cached.take(
        16 * (m + 1),
    ) {
        law_block_digest_depends_only_on_prefix(prompt, cached, m as nat);
        assert(m < prompt.len() / 16) by (nonlinear_arith)
            requires
                16 * (m + 1) <= prompt.len(),
                0 <= m,
        ;
        assert(m < cached.len() / 16) by (nonlinear_arith)
            requires
                16 * (m + 1) <= cached.len(),
                0 <= m,
        ;
        assert(hp[m] == hc[m]);
        lemma_depth_index_distinct(hc, m);
    }
}

} // verus!
