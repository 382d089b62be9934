use cognitora::cluster::{node_key, node_line, registered_address, role_label, Cmd as ClusterCmd, NodeRole, NodeRow};
use cognitora::error::Error;
use cognitora::models::{load_doc, model_table, AgentRow, Cmd as ModelCmd, ModelDoc};
use cognitora::pki::bootstrap_sans;
use cognitora::kvcached::KvStats;
use cognitora::order::{insert_sorted, join_with, str_lt};

fn doc(name: &str, tp: u32, max_len: Option<u32>, cascade: Option<&str>) -> ModelDoc {
    ModelDoc {
        name: name.into(),
        tp,
        prefill_replicas: 1,
        decode_replicas: 2,
        max_model_len: max_len,
        cascade: cascade.map(String::from),
        extra_args: vec![],
        stamp: "2024-01-01T00:00:00Z".into(),
    }
}

fn row(node: &str, model: Option<&str>, ready: bool) -> AgentRow {
    AgentRow { node_id: node.into(), model: model.map(String::from), ready }
}

#[test]
fn string_order_is_lexicographic() {
    assert!(str_lt("a", "b"));
    assert!(str_lt("ab", "abc"));
    assert!(!str_lt("abc", "ab"));
    assert!(!str_lt("x", "x"));
    assert!(str_lt("Z", "a"));
    let mut v: Vec<String> = Vec::new();
    for s in ["m", "b", "z", "b", "a"] {
        insert_sorted(&mut v, s.to_string());
    }
    assert_eq!(v, vec!["a", "b", "m", "z"]);
    assert_eq!(join_with(&v, ","), "a,b,m,z");
    assert_eq!(join_with(&[], ","), "");
}

#[test]
fn model_table_shows_desired_live_and_drift() {
    let docs = vec![
        doc("llama3-8b", 1, Some(8192), None),
        doc("qwen", 2, None, Some("tiny")),
        doc("llama3-8b", 4, None, None),
    ];
    let rows = vec![
        row("node-b", Some("llama3-8b"), true),
        row("node-a", Some("llama3-8b"), true),
        row("node-c", Some("mistral"), true),
        row("node-d", Some("qwen"), false),
        row("node-e", None, true),
    ];
    let t = model_table(&docs, &rows);
    let names: Vec<&str> = t.iter().map(|l| l.name.as_str()).collect();
    assert_eq!(names, vec!["llama3-8b", "mistral", "qwen"]);

    // The later document of a name wins.
    let d = t[0].desired.as_ref().unwrap();
    assert_eq!((d.tp, d.prefill_replicas, d.decode_replicas), (4, 1, 2));
    assert_eq!((d.max_len.as_str(), d.cascade.as_str()), ("-", "-"));
    assert_eq!(t[0].live, "node-a,node-b");

    // Served but not desired: drift.
    assert!(t[1].desired.is_none());
    assert_eq!(t[1].live, "node-c");

    // Desired, but the only node reporting it is not ready.
    let q = t[2].desired.as_ref().unwrap();
    assert_eq!((q.max_len.as_str(), q.cascade.as_str()), ("-", "tiny"));
    assert_eq!(t[2].live, "-");
}

#[test]
fn model_table_max_len_column() {
    let t = model_table(&[doc("m", 1, Some(8192), None)], &[]);
    assert_eq!(t.len(), 1);
    assert_eq!(t[0].desired.as_ref().unwrap().max_len, "8192");
    assert!(model_table(&[], &[]).is_empty());
}

#[test]
fn node_lines_mark_cordons() {
    let r = NodeRow {
        node_id: "gpu-1".into(),
        address: "http://10.0.0.1:7071".into(),
        role: NodeRole::Decode,
        model: None,
        queue_depth: 3,
        ready: true,
        version: String::new(),
    };
    let keys = vec!["/cognitora/cordon/gpu-1".to_string(), "/other/gpu-2".to_string()];
    let l = node_line(&r, &keys, "/cognitora/cordon/");
    assert_eq!(l.label, "gpu-1 *");
    assert_eq!(l.role, "decode");
    assert_eq!(l.model, "-");
    assert_eq!(l.ready, "yes");
    assert_eq!(l.version, "-");
    assert_eq!(l.queue_depth, 3);
    let r2 = NodeRow { node_id: "gpu-2".into(), ready: false, version: "0.6.0".into(), model: Some("m".into()), ..r };
    let l2 = node_line(&r2, &keys, "/cognitora/cordon/");
    assert_eq!(l2.label, "gpu-2");
    assert_eq!((l2.ready.as_str(), l2.version.as_str(), l2.model.as_str()), ("no", "0.6.0", "m"));
    assert_eq!(role_label(NodeRole::Unspecified), "?");
    assert_eq!(role_label(NodeRole::Both), "both");
    assert_eq!(role_label(NodeRole::Prefill), "prefill");
}

#[test]
fn model_load_writes_a_document() {
    let cmd = ModelCmd::Load {
        name: "llama3-8b".into(),
        tp: 2,
        prefill_replicas: 1,
        decode_replicas: 2,
        max_model_len: Some(8192),
        cascade: None,
        extra: vec!["--x".into()],
    };
    let d = load_doc(cmd, "2024-05-01T00:00:00Z".into()).unwrap();
    assert_eq!((d.name.as_str(), d.tp, d.prefill_replicas, d.decode_replicas), ("llama3-8b", 2, 1, 2));
    assert_eq!(d.max_model_len, Some(8192));
    assert_eq!(d.extra_args, vec!["--x".to_string()]);
    assert_eq!(d.stamp, "2024-05-01T00:00:00Z");
    assert!(load_doc(ModelCmd::Ls, "t".into()).is_none());
    assert!(load_doc(ModelCmd::Unload { name: "x".into() }, "t".into()).is_none());
}

#[test]
fn node_keys_and_cluster_commands() {
    assert_eq!(node_key("/cognitora/cordon/", "gpu-1"), "/cognitora/cordon/gpu-1");
    let c = ClusterCmd::Cordon { node_id: "gpu-1".into() };
    assert!(matches!(c, ClusterCmd::Cordon { ref node_id } if node_id == "gpu-1"));
}

#[test]
fn pki_sans_default_to_localhost() {
    assert_eq!(bootstrap_sans(vec![]), vec!["localhost".to_string()]);
    assert_eq!(bootstrap_sans(vec!["a.example".into()]), vec!["a.example".to_string()]);
}

#[test]
fn kv_stats_count_lookups_spills_and_evictions() {
    let mut s = KvStats::new();
    s.record_lookup(true);
    s.record_lookup(true);
    s.record_lookup(false);
    s.record_spill();
    s.record_eviction();
    assert_eq!((s.hits, s.misses, s.spills, s.evictions), (2, 1, 1, 1));
    assert_eq!((s.bytes_pushed, s.bytes_pulled), (0, 0));
}

#[test]
fn drain_address_comes_from_the_registration() {
    let mut n = NodeRow {
        node_id: "n1".into(),
        address: "https://10.0.0.5:7443".into(),
        role: NodeRole::Both,
        model: None,
        queue_depth: 0,
        ready: true,
        version: "0.6.0".into(),
    };
    assert_eq!(registered_address("n1", Some(&n)).unwrap(), "https://10.0.0.5:7443");
    match registered_address("n9", None) {
        Err(Error::NotFound(m)) => assert_eq!(m, "node n9 not registered in etcd"),
        other => panic!("unexpected {:?}", other),
    }
    n.address = String::new();
    match registered_address("n1", Some(&n)) {
        Err(Error::Internal(m)) => assert_eq!(m, "node n1 has no address in its etcd entry"),
        other => panic!("unexpected {:?}", other),
    }
}
