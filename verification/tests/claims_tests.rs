use cognitora::claims::{claim_key, ClaimLedger, KV_CONFIRMED_MAX_KEYS};

fn hex32(b: u8) -> String {
    std::iter::repeat(format!("{b:02x}")).take(32).collect()
}

#[test]
fn claim_key_spells_prefix_node_and_hex() {
    let k = claim_key("/cognitora/kv_confirmed/", "node-a", &[0xab; 32]).unwrap();
    assert_eq!(k, format!("/cognitora/kv_confirmed/node-a/{}", hex32(0xab)));
}

#[test]
fn claim_key_rejects_short_digests() {
    assert!(claim_key("/p/", "n", &[1u8; 31]).is_none());
    assert!(claim_key("/p/", "n", &[]).is_none());
    assert!(claim_key("/p/", "n", &[1u8; 33]).is_none());
}

#[test]
fn ledger_queues_a_key_once() {
    let mut l = ClaimLedger::new();
    assert!(l.track("a".to_string()));
    assert!(l.track("b".to_string()));
    assert!(!l.track("a".to_string()));
    assert_eq!(l.len(), 2);
    assert!(l.is_tracked("a"));
    assert!(!l.is_tracked("c"));
}

#[test]
fn eviction_drops_oldest_half_under_pressure() {
    let mut l = ClaimLedger::new();
    for k in ["k0", "k1", "k2", "k3", "k4"] {
        l.track(k.to_string());
    }
    let target = l.eviction_target(true);
    assert_eq!(target, 2);
    let mut gone = Vec::new();
    while let Some(k) = l.pop_oldest_over(target) {
        gone.push(k);
    }
    assert_eq!(gone, vec!["k0", "k1", "k2"]);
    assert_eq!(l.len(), 2);
    assert!(l.is_tracked("k3") && l.is_tracked("k4"));
}

#[test]
fn eviction_without_pressure_keeps_up_to_the_cap() {
    let mut l = ClaimLedger::new();
    for i in 0..(KV_CONFIRMED_MAX_KEYS + 3) {
        l.track(format!("key-{i}"));
    }
    let target = l.eviction_target(false);
    assert_eq!(target, 4096);
    let mut gone = Vec::new();
    while let Some(k) = l.pop_oldest_over(target) {
        gone.push(k);
    }
    assert_eq!(gone, vec!["key-0", "key-1", "key-2"]);
    assert_eq!(l.len(), 4096);
    assert!(l.pop_oldest_over(target).is_none());
}
