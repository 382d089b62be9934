use cognitora::digest::hash_block;
use cognitora::kv::{block_hashes, KvPool, PrefixCache, PrefixMatch};
use cognitora::kv_epoch::{EngineStats, KvCacheState};

fn toks(n: usize) -> Vec<u32> {
    (0..n as u32).collect()
}

#[test]
fn empty_cache_matches_nothing() {
    let c = PrefixCache::new();
    assert_eq!(c.match_prefix(&toks(64)).tokens, 0);
}

#[test]
fn full_prefix_reuse() {
    let mut c = PrefixCache::new();
    let prompt = toks(64);
    c.record(&prompt);
    let m = c.match_prefix(&prompt);
    assert_eq!(m, PrefixMatch { tokens: 64, blocks: 4 });
}

#[test]
fn partial_prefix_reuse() {
    let mut c = PrefixCache::new();
    c.record(&toks(64));
    let mut other = toks(32);
    other.extend([9999u32; 32]);
    let m = c.match_prefix(&other);
    assert_eq!(m, PrefixMatch { tokens: 32, blocks: 2 });
}

#[test]
fn divergence_at_first_block_matches_nothing() {
    let mut c = PrefixCache::new();
    c.record(&toks(64));
    let mut other = toks(64);
    other[0] = 12345;
    assert_eq!(c.match_prefix(&other).tokens, 0);
}

#[test]
fn incomplete_tail_block_is_not_indexed() {
    let mut c = PrefixCache::new();
    c.record(&toks(20));
    let m = c.match_prefix(&toks(20));
    assert_eq!(m, PrefixMatch { tokens: 16, blocks: 1 });
}

#[test]
fn chained_hashes_distinguish_same_block_different_prefix() {
    let a = toks(32);
    let mut b = a.clone();
    b[0] = 7;
    let ha = block_hashes(&a);
    let hb = block_hashes(&b);
    assert_ne!(ha[1], hb[1]);
}

#[test]
fn pool_blocks_for_rounds_up() {
    assert_eq!(KvPool::blocks_for(0), 0);
    assert_eq!(KvPool::blocks_for(1), 1);
    assert_eq!(KvPool::blocks_for(16), 1);
    assert_eq!(KvPool::blocks_for(17), 2);
}

#[test]
fn pool_reserve_grows_incrementally() {
    let mut p = KvPool::new(4);
    assert!(p.reserve(1, 16));
    assert_eq!(p.used_blocks(), 1);
    assert!(p.reserve(1, 17));
    assert_eq!(p.used_blocks(), 2);
    assert!(p.reserve(1, 20));
    assert_eq!(p.used_blocks(), 2);
    assert_eq!(p.held_by(1), 2);
}

#[test]
fn pool_rejects_overflow_without_state_change() {
    let mut p = KvPool::new(2);
    assert!(p.reserve(1, 32));
    assert!(!p.reserve(2, 1));
    assert_eq!(p.held_by(2), 0);
    assert_eq!(p.used_blocks(), 2);
}

#[test]
fn pool_release_frees_blocks() {
    let mut p = KvPool::new(2);
    assert!(p.reserve(1, 32));
    p.release(1);
    assert_eq!(p.free_blocks(), 2);
    assert!(p.reserve(2, 32));
    p.release(99);
    assert_eq!(p.used_blocks(), 2);
}

#[test]
fn clear_resets_state() {
    let mut c = PrefixCache::new();
    c.record(&toks(64));
    c.clear();
    assert_eq!(c.match_prefix(&toks(64)).tokens, 0);
    assert_eq!(c.cached_tokens(), 0);
}

#[test]
fn record_keeps_the_token_count_but_indexes_whole_blocks() {
    let mut c = PrefixCache::new();
    c.record(&toks(40));
    assert_eq!(c.cached_tokens(), 40);
    assert_eq!(c.match_prefix(&toks(40)), PrefixMatch { tokens: 32, blocks: 2 });
}

#[test]
fn block_hashes_chain_onto_the_parent_digest() {
    let t = toks(32);
    let hs = block_hashes(&t);
    assert_eq!(hs.len(), 2);
    let first = hash_block(None, &t[0..16]);
    assert_eq!(hs[0], first);
    assert_eq!(hs[1], hash_block(Some(&first), &t[16..32]));
    assert_ne!(hs[1], hash_block(None, &t[16..32]));
}

#[test]
fn hash_block_is_blake3_of_parent_and_le_tokens() {
    let tokens: Vec<u32> = (0..16).collect();
    let mut bytes = Vec::new();
    for t in &tokens {
        bytes.extend_from_slice(&t.to_le_bytes());
    }
    let expected = *blake3::hash(&bytes).as_bytes();
    assert_eq!(hash_block(None, &tokens), expected);
    assert_ne!(&expected[..], &bytes[..32]);
}

#[test]
fn release_after_reserve_restores_pool() {
    let mut p = KvPool::new(8);
    assert!(p.reserve(3, 20));
    p.release(3);
    assert_eq!(p.used_blocks(), 0);
    assert_eq!(p.free_blocks(), 8);
    assert_eq!(p.total_blocks(), 8);
}

fn stats(free: u32, total: u32) -> EngineStats {
    EngineStats { queue_depth: 0, free_blocks: free, total_blocks: total }
}

#[test]
fn epoch_starts_at_zero() {
    let mut s = KvCacheState::default();
    assert_eq!(s.observe(true, &stats(100, 1000)), 0);
}

#[test]
fn restart_bumps_epoch() {
    let mut s = KvCacheState::default();
    assert_eq!(s.observe(true, &stats(500, 1000)), 0);
    assert_eq!(s.observe(false, &stats(500, 1000)), 1);
    assert_eq!(s.observe(true, &stats(500, 1000)), 2);
}

#[test]
fn total_blocks_change_bumps_epoch() {
    let mut s = KvCacheState::default();
    s.observe(true, &stats(500, 1000));
    assert_eq!(s.observe(true, &stats(500, 2000)), 1);
}

#[test]
fn large_free_jump_bumps_epoch() {
    let mut s = KvCacheState::default();
    s.observe(true, &stats(100, 1000));
    assert_eq!(s.observe(true, &stats(300, 1000)), 1);
}

#[test]
fn small_free_change_keeps_epoch() {
    let mut s = KvCacheState::default();
    s.observe(true, &stats(100, 1000));
    assert_eq!(s.observe(true, &stats(120, 1000)), 0);
}

#[test]
fn match_is_the_longest_common_block_prefix() {
    let cached: Vec<u32> = (0..64).collect();
    let mut c = PrefixCache::new();
    c.record(&cached);
    let mut prompt: Vec<u32> = (0..40).collect();
    prompt[35] = 999; // third block differs
    let m = c.match_prefix(&prompt);
    assert_eq!((m.blocks, m.tokens), (2, 32));
    let m = c.match_prefix(&cached[..48]);
    assert_eq!((m.blocks, m.tokens), (3, 48));
    let m = c.match_prefix(&[7u32; 20]);
    assert_eq!(m.blocks, 0);
}
