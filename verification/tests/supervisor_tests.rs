use cognitora::error::Error;
use cognitora::spawn::{
    EngineConfig, EngineKind, KvOffload, LlamaCppEngineConfig, MlxLmEngineConfig, SglangEngineConfig,
    VllmEngineConfig,
};
use cognitora::spawn::NodeRoleCfg;
use cognitora::supervisor::{default_model_spec, ready_step, resolve_engine_config, spawn_plan, ModelConfig, ReadyStep};

fn engine(url: &str) -> EngineConfig {
    EngineConfig {
        kind: EngineKind::Vllm,
        url: url.to_string(),
        kv_offload: KvOffload::Off,
        vllm: VllmEngineConfig::default(),
        sglang: SglangEngineConfig::default(),
        llama_cpp: LlamaCppEngineConfig::default(),
        mlx_lm: MlxLmEngineConfig::default(),
    }
}

#[test]
fn legacy_url_applies_only_over_the_default() {
    let d = "http://127.0.0.1:8000";
    let c = resolve_engine_config(engine(d), d, Some("http://10.0.0.5:8000"));
    assert_eq!(c.url, "http://10.0.0.5:8000");
    let c = resolve_engine_config(engine("http://explicit:9000"), d, Some("http://10.0.0.5:8000"));
    assert_eq!(c.url, "http://explicit:9000");
    let c = resolve_engine_config(engine(d), d, Some(""));
    assert_eq!(c.url, d);
    let c = resolve_engine_config(engine(d), d, None);
    assert_eq!(c.url, d);
    assert_eq!(c.kind, EngineKind::Vllm);
}

#[test]
fn the_first_declared_model_is_spawned() {
    assert!(default_model_spec(&[]).is_none());
    let m = ModelConfig { tp: 2, max_model_len: Some(4096), extra_args: vec!["--x".into()], path: None };
    let n = ModelConfig { tp: 1, max_model_len: None, extra_args: vec![], path: Some("/m".into()) };
    let s = default_model_spec(&[("llama3-8b".to_string(), m), ("other".to_string(), n)]).unwrap();
    assert_eq!(s.name, "llama3-8b");
    assert_eq!((s.tp, s.max_model_len), (2, Some(4096)));
    assert_eq!(s.extra_args, vec!["--x".to_string()]);
    assert!(s.path.is_none());
}

#[test]
fn readiness_wait_backs_off_to_two_seconds() {
    assert!(matches!(ready_step(true, 0, 10, 100_000_000), ReadyStep::Ready));
    match ready_step(false, 11, 10, 100_000_000) {
        ReadyStep::GiveUp(Error::Unavailable(m)) => assert_eq!(m, "engine never became ready"),
        other => panic!("unexpected {other:?}"),
    }
    let mut delay = 100_000_000u64;
    let mut seen = Vec::new();
    for _ in 0..7 {
        match ready_step(false, 0, 10, delay) {
            ReadyStep::Wait { sleep_ns, next_delay_ns } => {
                seen.push(sleep_ns);
                delay = next_delay_ns;
            }
            other => panic!("unexpected {other:?}"),
        }
    }
    assert_eq!(
        seen,
        vec![100_000_000, 200_000_000, 400_000_000, 800_000_000, 1_600_000_000, 2_000_000_000, 2_000_000_000]
    );
}

#[test]
fn spawn_plan_renders_the_first_model_or_nothing() {
    let models = vec![(
        "meta-llama/Llama-3.1-8B-Instruct".to_string(),
        ModelConfig { tp: 1, max_model_len: None, extra_args: vec![], path: None },
    )];
    let argv = spawn_plan(&engine("http://127.0.0.1:8000"), &models, NodeRoleCfg::Both, None).unwrap().unwrap();
    assert_eq!(argv[0], "vllm");
    assert_eq!(argv[1], "serve");
    assert_eq!(argv[2], "meta-llama/Llama-3.1-8B-Instruct");
    assert!(spawn_plan(&engine("http://127.0.0.1:8000"), &[], NodeRoleCfg::Both, None).unwrap().is_none());
    let mut external = engine("http://127.0.0.1:8000");
    external.kind = EngineKind::OpenaiCompat;
    assert!(spawn_plan(&external, &models, NodeRoleCfg::Both, None).unwrap().is_none());
    let mut bad = engine("http://127.0.0.1:8000");
    bad.kv_offload = KvOffload::Hicache;
    match spawn_plan(&bad, &models, NodeRoleCfg::Both, None) {
        Err(Error::Config(m)) => assert!(m.starts_with("engine.kv_offload = \"hicache\" is not supported")),
        other => panic!("unexpected {other:?}"),
    }
}
