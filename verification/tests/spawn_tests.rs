use cognitora::spawn::{
    render_argv, should_spawn, vllm_kv_transfer_config, EngineConfig, EngineKind, KvOffload, LlamaCppEngineConfig,
    LlamaCppMode, MlxLmEngineConfig, ModelSpec, NodeRoleCfg, SglangEngineConfig, VllmEngineConfig,
};

fn vllm_cfg() -> EngineConfig {
    EngineConfig {
        kind: EngineKind::Vllm,
        url: "http://127.0.0.1:8000".into(),
        kv_offload: KvOffload::Off,
        vllm: VllmEngineConfig {
            binary: "vllm".into(),
            extra_args: vec!["--enable-chunked-prefill".into()],
        },
        sglang: SglangEngineConfig::default(),
        llama_cpp: LlamaCppEngineConfig::default(),
        mlx_lm: Default::default(),
    }
}

fn sglang_cfg() -> EngineConfig {
    EngineConfig {
        kind: EngineKind::Sglang,
        url: "http://127.0.0.1:30000".into(),
        kv_offload: KvOffload::Off,
        vllm: VllmEngineConfig::default(),
        sglang: SglangEngineConfig {
            binary: "python".into(),
            host: "127.0.0.1".into(),
            port: 30000,
            context_length: 8192,
            mem_fraction_static: format!("{:.3}", 0.85f32),
            extra_args: vec!["--enable-torch-compile".into()],
        },
        llama_cpp: LlamaCppEngineConfig::default(),
        mlx_lm: Default::default(),
    }
}

fn llama_cfg() -> EngineConfig {
    EngineConfig {
        kind: EngineKind::LlamaCpp,
        url: "http://127.0.0.1:8000".into(),
        kv_offload: KvOffload::Off,
        vllm: VllmEngineConfig::default(),
        sglang: SglangEngineConfig::default(),
        llama_cpp: LlamaCppEngineConfig {
            binary: "python".into(),
            mode: LlamaCppMode::PythonServer,
            host: "127.0.0.1".into(),
            port: 8000,
            n_ctx: 4096,
            n_threads: 4,
            n_gpu_layers: 0,
            extra_args: vec![],
        },
        mlx_lm: Default::default(),
    }
}

fn mlx_cfg() -> EngineConfig {
    EngineConfig {
        kind: EngineKind::Mlx,
        url: "http://127.0.0.1:8090".into(),
        kv_offload: KvOffload::Off,
        vllm: VllmEngineConfig::default(),
        sglang: SglangEngineConfig::default(),
        llama_cpp: LlamaCppEngineConfig::default(),
        mlx_lm: MlxLmEngineConfig::default(),
    }
}

fn spec(name: &str, path: Option<&str>) -> ModelSpec {
    ModelSpec {
        name: name.into(),
        tp: 1,
        max_model_len: Some(2048),
        extra_args: vec![],
        path: path.map(|p| p.to_string()),
    }
}

#[test]
fn renders_vllm_command() {
    let argv = render_argv(
        &vllm_cfg(),
        &spec("Qwen/Qwen2.5-0.5B", None),
        NodeRoleCfg::Both,
        None,
    )
    .unwrap();
    assert_eq!(argv[0], "vllm");
    assert_eq!(argv[1], "serve");
    assert_eq!(argv[2], "Qwen/Qwen2.5-0.5B");
    assert!(argv.contains(&"--tensor-parallel-size".to_string()));
    assert!(argv.contains(&"--max-model-len".to_string()));
    assert!(argv.contains(&"--enable-chunked-prefill".to_string()));
    assert!(!argv.iter().any(|a| a == "--kv-transfer-config"));
}

#[test]
fn renders_sglang_command() {
    let argv = render_argv(
        &sglang_cfg(),
        &spec("Qwen/Qwen2.5-7B-Instruct", None),
        NodeRoleCfg::Both,
        None,
    )
    .unwrap();
    assert_eq!(argv[0], "python");
    assert_eq!(argv[1], "-m");
    assert_eq!(argv[2], "sglang.launch_server");
    assert!(argv.contains(&"--model-path".to_string()));
    assert!(argv.contains(&"Qwen/Qwen2.5-7B-Instruct".to_string()));
    assert!(argv.contains(&"--served-model-name".to_string()));
    assert!(argv.contains(&"--tp".to_string()));
    assert!(argv.contains(&"--host".to_string()));
    assert!(argv.contains(&"--port".to_string()));
    assert!(argv.contains(&"--mem-fraction-static".to_string()));
    assert!(argv.contains(&"--enable-torch-compile".to_string()));
    assert!(!argv.iter().any(|a| a == "--enable-hierarchical-cache"));
}

#[test]
fn sglang_uses_local_path_when_present() {
    let argv = render_argv(
        &sglang_cfg(),
        &spec("Qwen/Qwen2.5-7B-Instruct", Some("/models/qwen-7b")),
        NodeRoleCfg::Both,
        None,
    )
    .unwrap();
    assert!(argv.contains(&"/models/qwen-7b".to_string()));
    assert!(argv.contains(&"Qwen/Qwen2.5-7B-Instruct".to_string()));
}

#[test]
fn vllm_lmcache_aggregated_injects_lmcache_connector() {
    let mut cfg = vllm_cfg();
    cfg.kv_offload = KvOffload::Lmcache;
    let argv = render_argv(&cfg, &spec("Qwen/Qwen2.5-0.5B", None), NodeRoleCfg::Both, None).unwrap();
    let i = argv
        .iter()
        .position(|a| a == "--kv-transfer-config")
        .expect("--kv-transfer-config missing");
    let json = &argv[i + 1];
    assert!(json.contains("LMCacheConnectorV1"));
    assert!(json.contains("kv_both"));
}

#[test]
fn vllm_lmcache_prefill_uses_pd_connector_with_nixl() {
    let mut cfg = vllm_cfg();
    cfg.kv_offload = KvOffload::Lmcache;
    let argv = render_argv(&cfg, &spec("Qwen/Qwen2.5-0.5B", None), NodeRoleCfg::Prefill, None).unwrap();
    let i = argv.iter().position(|a| a == "--kv-transfer-config").unwrap();
    let json = &argv[i + 1];
    assert!(json.contains("PdConnector"));
    assert!(json.contains("LMCacheConnectorV1"));
    assert!(json.contains("NixlConnector"));
}

#[test]
fn vllm_nixl_decode_emits_consumer_role() {
    let mut cfg = vllm_cfg();
    cfg.kv_offload = KvOffload::Nixl;
    let argv = render_argv(&cfg, &spec("Qwen/Qwen2.5-0.5B", None), NodeRoleCfg::Decode, None).unwrap();
    let i = argv.iter().position(|a| a == "--kv-transfer-config").unwrap();
    let json = &argv[i + 1];
    assert!(json.contains("NixlConnector"));
    assert!(json.contains("kv_consumer"));
}

#[test]
fn vllm_kvbm_aggregated_uses_dynamo_connector() {
    let mut cfg = vllm_cfg();
    cfg.kv_offload = KvOffload::Kvbm;
    let argv = render_argv(&cfg, &spec("Qwen/Qwen2.5-0.5B", None), NodeRoleCfg::Both, None).unwrap();
    let i = argv.iter().position(|a| a == "--kv-transfer-config").unwrap();
    let json = &argv[i + 1];
    assert!(json.contains("DynamoConnector"));
    assert!(json.contains("kvbm.vllm_integration.connector"));
}

#[test]
fn sglang_hicache_appends_hierarchical_cache_flags() {
    let mut cfg = sglang_cfg();
    cfg.kv_offload = KvOffload::Hicache;
    let argv = render_argv(
        &cfg,
        &spec("Qwen/Qwen2.5-7B-Instruct", None),
        NodeRoleCfg::Both,
        None,
    )
    .unwrap();
    assert!(argv.contains(&"--enable-hierarchical-cache".to_string()));
    assert!(argv.contains(&"--hicache-ratio".to_string()));
    assert!(argv.contains(&"--hicache-write-policy".to_string()));
    assert!(argv.contains(&"--hicache-storage-backend".to_string()));
    assert!(argv.contains(&"nixl".to_string()));
}

#[test]
fn rejects_lmcache_on_sglang() {
    let mut cfg = sglang_cfg();
    cfg.kv_offload = KvOffload::Lmcache;
    let err = render_argv(
        &cfg,
        &spec("Qwen/Qwen2.5-7B-Instruct", None),
        NodeRoleCfg::Both,
        None,
    )
    .unwrap_err();
    let msg = format!("{err:?}");
    assert!(msg.contains("kv_offload"));
    assert!(msg.contains("sglang"));
}

#[test]
fn rejects_hicache_on_vllm() {
    let mut cfg = vllm_cfg();
    cfg.kv_offload = KvOffload::Hicache;
    let err = render_argv(&cfg, &spec("Qwen/Qwen2.5-0.5B", None), NodeRoleCfg::Both, None).unwrap_err();
    assert!(format!("{err:?}").contains("kv_offload"));
}

#[test]
fn rejects_kvbm_on_llama_cpp() {
    let mut cfg = llama_cfg();
    cfg.kv_offload = KvOffload::Kvbm;
    let err = render_argv(
        &cfg,
        &spec("Qwen/Qwen2.5-0.5B", Some("/tmp/qwen.gguf")),
        NodeRoleCfg::Both,
        None,
    )
    .unwrap_err();
    assert!(format!("{err:?}").contains("kv_offload"));
}

#[test]
fn renders_llama_cpp_python_server() {
    let argv = render_argv(
        &llama_cfg(),
        &spec("Qwen/Qwen2.5-0.5B", Some("/tmp/qwen.gguf")),
        NodeRoleCfg::Both,
        None,
    )
    .unwrap();
    assert_eq!(argv[0], "python");
    assert_eq!(argv[1], "-m");
    assert_eq!(argv[2], "llama_cpp.server");
    assert!(argv.contains(&"--model".to_string()));
    assert!(argv.contains(&"/tmp/qwen.gguf".to_string()));
    assert!(argv.contains(&"--model_alias".to_string()));
    assert!(argv.contains(&"--n_gpu_layers".to_string()));
}

#[test]
fn llama_cpp_requires_path() {
    let err = render_argv(&llama_cfg(), &spec("Qwen/Qwen2.5-0.5B", None), NodeRoleCfg::Both, None)
        .unwrap_err();
    assert!(format!("{err:?}").contains("path"));
}

#[test]
fn renders_mlx_command() {
    let argv = render_argv(
        &mlx_cfg(),
        &spec("mlx-community/Meta-Llama-3.2-3B-Instruct-4bit", None),
        NodeRoleCfg::Both,
        None,
    )
    .unwrap();
    assert_eq!(argv[0], "python3");
    assert_eq!(argv[1], "-m");
    assert_eq!(argv[2], "mlx_lm.server");
    assert!(argv
        .windows(2)
        .any(|w| w[0] == "--model" && w[1] == "mlx-community/Meta-Llama-3.2-3B-Instruct-4bit"));
    assert!(argv.windows(2).any(|w| w[0] == "--port" && w[1] == "8090"));
}

#[test]
fn mlx_uses_local_path_when_present() {
    let argv = render_argv(
        &mlx_cfg(),
        &spec("mlx-community/Meta-Llama-3.2-3B-Instruct-4bit", Some("/models/my-mlx")),
        NodeRoleCfg::Both,
        None,
    )
    .unwrap();
    assert!(argv.contains(&"/models/my-mlx".to_string()));
}

#[test]
fn legacy_cmd_takes_precedence() {
    let legacy = vec!["/bin/sleep".to_string(), "infinity".to_string(), "{model}".to_string()];
    let argv = render_argv(
        &vllm_cfg(),
        &spec("Qwen/Qwen2.5-0.5B", None),
        NodeRoleCfg::Both,
        Some(legacy.as_slice()),
    )
    .unwrap();
    assert_eq!(argv[0], "/bin/sleep");
    assert_eq!(argv[2], "Qwen/Qwen2.5-0.5B");
}

#[test]
fn openai_compat_does_not_spawn() {
    let cfg = EngineConfig {
        kind: EngineKind::OpenaiCompat,
        url: "http://127.0.0.1:8000".into(),
        kv_offload: KvOffload::Off,
        vllm: VllmEngineConfig::default(),
        sglang: SglangEngineConfig::default(),
        llama_cpp: LlamaCppEngineConfig::default(),
        mlx_lm: MlxLmEngineConfig::default(),
    };
    assert!(!should_spawn(&cfg));
    assert!(render_argv(&cfg, &spec("a", None), NodeRoleCfg::Both, None).is_err());
}

#[test]
fn vllm_argv_is_exact() {
    let argv = render_argv(&vllm_cfg(), &spec("m", None), NodeRoleCfg::Both, None).unwrap();
    assert_eq!(
        argv,
        vec![
            "vllm",
            "serve",
            "m",
            "--tensor-parallel-size",
            "1",
            "--max-model-len",
            "2048",
            "--enable-chunked-prefill"
        ]
    );
}

#[test]
fn sglang_rejection_message_names_both_sides() {
    let mut cfg = sglang_cfg();
    cfg.kv_offload = KvOffload::Kvbm;
    let err = render_argv(&cfg, &spec("m", None), NodeRoleCfg::Both, None).unwrap_err();
    assert_eq!(
        err.message().as_str(),
        "engine.kv_offload = \"kvbm\" is not supported with engine.kind = \"sglang\". Valid pairings: vllm × {none,nixl,lmcache,kvbm}, sglang × {none,nixl,hicache}, llama_cpp/mlx/openai_compat × {none}."
    );
}

#[test]
fn vllm_lmcache_decode_is_a_nixl_consumer() {
    let j = vllm_kv_transfer_config(NodeRoleCfg::Decode, KvOffload::Lmcache).unwrap();
    assert_eq!(j, r#"{"kv_connector":"NixlConnector","kv_role":"kv_consumer"}"#);
}

#[test]
fn message_json_restores_multimodal_and_tool_fields() {
    let m = cognitora::spawn::ChatMessage {
        role: "user".into(),
        content: String::new(),
        content_json: r#"[{"type":"text","text":"what is this?"},{"type":"image_url","image_url":{"url":"https://x/y.png"}}]"#.into(),
        tool_calls_json: String::new(),
        tool_call_id: String::new(),
    };
    let f = cognitora::spawn::message_fields(&m);
    assert!(f.structured && !f.tool_calls && !f.tool_call_id);
    let v: serde_json::Value = serde_json::from_str(&m.content_json).unwrap();
    assert!(v.is_array());
    assert_eq!(v[1]["type"], "image_url");

    let t = cognitora::spawn::ChatMessage {
        role: "tool".into(),
        content: "72F".into(),
        content_json: String::new(),
        tool_calls_json: String::new(),
        tool_call_id: "call_1".into(),
    };
    let f = cognitora::spawn::message_fields(&t);
    assert!(!f.structured && !f.tool_calls && f.tool_call_id);
}

#[test]
fn invalid_structured_content_falls_back_to_text() {
    let m = cognitora::spawn::ChatMessage {
        role: "user".into(),
        content: "plain".into(),
        content_json: "[not json".into(),
        tool_calls_json: "{\"also\": broken".into(),
        tool_call_id: String::new(),
    };
    let f = cognitora::spawn::message_fields(&m);
    assert!(!f.structured && !f.tool_calls && !f.tool_call_id);
}
