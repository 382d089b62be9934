use cognitora::kvcached::{
    block_info, cold_block_count, digest_from_bytes, lookup_candidates, promote_reply, pull_reply,
    push_reply, resident_digests, spill_action, ttl_expired, BlockInfo, BlockMeta, PullOutcome,
    PushOutcome, SpillAction, TierKind, WireTier,
};

#[test]
fn spill_runs_only_over_the_watermark_and_while_progressing() {
    // No RAM tier, or under the watermark: nothing to do.
    assert_eq!(spill_action(0, 0, None, 10), SpillAction::Done);
    assert_eq!(spill_action(1024, 512, None, 512), SpillAction::Done);
    // Over the watermark: spill.
    assert_eq!(spill_action(1024, 512, None, 2048), SpillAction::SpillBatch);
    // A batch that freed memory but is still over: spill again.
    assert_eq!(spill_action(1024, 512, Some(2048), 1024), SpillAction::SpillBatch);
    // A batch that freed nothing: stop, so the loop cannot spin.
    assert_eq!(spill_action(1024, 512, Some(1024), 1024), SpillAction::Done);
}

#[test]
fn ssd_blocks_expire_after_the_ttl() {
    assert!(ttl_expired(TierKind::Ssd, 1000, 1, 60));
    assert!(!ttl_expired(TierKind::Ssd, 1000, 950, 60));
    assert!(!ttl_expired(TierKind::Ram, 1000, 1, 60));
    assert!(!ttl_expired(TierKind::Ssd, 1000, 1, 0));
    // A timestamp in the future saturates to age 0.
    assert!(!ttl_expired(TierKind::Ssd, 10, 1000, 5));
}

#[test]
fn cold_blocks_are_the_ssd_entries() {
    assert_eq!(cold_block_count(&[TierKind::Ram, TierKind::Ssd, TierKind::Ssd, TierKind::Gpu]), 2);
    assert_eq!(cold_block_count(&[]), 0);
}

#[test]
fn digests_must_be_32_bytes() {
    assert_eq!(digest_from_bytes(&[7u8; 32]), Some([7u8; 32]));
    assert_eq!(digest_from_bytes(&[7u8; 31]), None);
}

#[test]
fn block_info_reports_hits_and_misses() {
    let hit = block_info(
        &[1u8; 32],
        Some(BlockMeta { tier: TierKind::Ssd, bytes: 512, last_seen_unix: 1_700_000_000 }),
    );
    assert_eq!(hit.prefix_hash, vec![1u8; 32]);
    assert_eq!(hit.tier, WireTier::Ssd);
    assert_eq!(hit.size_bytes, 512);
    assert_eq!(hit.last_access_unix_ms, 1_700_000_000_000);
    assert_eq!(hit.owner_node, "");
    let miss = block_info(&[2u8; 32], None);
    assert_eq!(miss.tier, WireTier::Unspecified);
    assert_eq!((miss.size_bytes, miss.last_access_unix_ms), (0, 0));
}

#[test]
fn rpc_replies_carry_grpc_codes() {
    let r = promote_reply(true);
    assert_eq!((r.code, r.message.as_str()), (0, "promoted"));
    let r = promote_reply(false);
    assert_eq!((r.code, r.message.as_str()), (5, "miss"));
    let r = push_reply(&PushOutcome::NotResident);
    assert_eq!((r.code, r.message.as_str()), (5, "block not resident"));
    let r = push_reply(&PushOutcome::BadEndpoint("invalid socket address syntax".into()));
    assert_eq!((r.code, r.message.as_str()), (3, "bad target_endpoint: invalid socket address syntax"));
    let r = push_reply(&PushOutcome::Failed("timeout".into()));
    assert_eq!((r.code, r.message.as_str()), (14, "push: timeout"));
    let r = push_reply(&PushOutcome::Pushed);
    assert_eq!((r.code, r.message.as_str()), (0, "pushed"));
    let r = pull_reply(&PullOutcome::BadEndpoint("bad".into()));
    assert_eq!((r.code, r.message.as_str()), (3, "bad source_endpoint: bad"));
    let r = pull_reply(&PullOutcome::Failed("reset".into()));
    assert_eq!((r.code, r.message.as_str()), (14, "pull: reset"));
    let r = pull_reply(&PullOutcome::Empty);
    assert_eq!((r.code, r.message.as_str()), (5, "peer returned empty"));
    let r = pull_reply(&PullOutcome::InsertFailed("full".into()));
    assert_eq!((r.code, r.message.as_str()), (13, "local insert: full"));
    let r = pull_reply(&PullOutcome::Pulled);
    assert_eq!((r.code, r.message.as_str()), (0, "pulled"));
}

#[test]
fn resident_lookup_keeps_well_formed_hits() {
    let asked = lookup_candidates(&[vec![1u8; 32], vec![2u8; 3], vec![3u8; 32]]);
    assert_eq!(asked, vec![vec![1u8; 32], vec![3u8; 32]]);
    let entry = |h: Vec<u8>, size: u64| BlockInfo {
        prefix_hash: h,
        tier: WireTier::Ram,
        size_bytes: size,
        owner_node: String::new(),
        last_access_unix_ms: 0,
    };
    let got = resident_digests(&[entry(vec![1u8; 32], 10), entry(vec![3u8; 32], 0), entry(vec![4u8; 5], 9)]);
    assert_eq!(got, vec![vec![1u8; 32]]);
}
