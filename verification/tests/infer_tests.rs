use cognitora::infer::{pipeline_config, Role};
use cognitora::infer::{choose_runtime, resolve_tls, served_model_id, CoordinatorConfig, Runtime};
use cognitora::layers::LayerRange;
use cognitora::infer::{arch_supported, model_shape, RopeStyle};
use cognitora::error::Error;
use cognitora::infer::{read_metadata, Backend, EngineConfig, Encoding, MetaValue};

fn md(entries: &[(&str, MetaValue)]) -> Vec<(String, MetaValue)> {
    entries.iter().map(|(k, v)| (k.to_string(), v.clone())).collect()
}

#[test]
fn single_node_defaults() {
    let c = EngineConfig::single_node("/m.gguf".into(), Backend::Cpu, 2048, 4);
    assert_eq!(c.model_path, "/m.gguf");
    assert_eq!(c.backend, Backend::Cpu);
    assert_eq!((c.ctx, c.threads), (2048, 4));
    assert_eq!((c.max_batch, c.prefill_chunk, c.kv_pool_tokens), (8, 512, 64 * 1024));
    assert!(c.model_id.is_none());
    assert!(c.pipeline.is_none());
    assert_eq!(Backend::default(), Backend::Auto);
    assert_eq!(Encoding::default(), Encoding::F16);
}

#[test]
fn metadata_reads_the_known_keys() {
    let m = read_metadata(
        &md(&[
            ("general.architecture", MetaValue::Str("llama".into())),
            ("general.name", MetaValue::Str("Llama 3".into())),
            ("llama.context_length", MetaValue::U32(8192)),
            ("tokenizer.ggml.bos_token_id", MetaValue::U32(1)),
            ("tokenizer.ggml.eos_token_id", MetaValue::Other),
            ("tokenizer.chat_template", MetaValue::Str("{{ x }}".into())),
        ]),
        "file".into(),
    )
    .unwrap();
    assert_eq!(m.architecture, "llama");
    assert_eq!(m.name, "Llama 3");
    assert_eq!(m.context_length, 8192);
    assert_eq!(m.bos_token_id, Some(1));
    assert_eq!(m.eos_token_id, None);
    assert_eq!(m.chat_template.as_deref(), Some("{{ x }}"));
}

#[test]
fn metadata_defaults_and_requirements() {
    let m = read_metadata(&md(&[("general.architecture", MetaValue::Str("qwen2".into()))]), "stem".into())
        .unwrap();
    assert_eq!(m.name, "stem");
    assert_eq!(m.context_length, 4096);
    let e = read_metadata(&md(&[("general.name", MetaValue::Str("x".into()))]), "stem".into()).unwrap_err();
    assert_eq!(e.message().as_str(), "gguf: missing general.architecture");
}

fn llama_header(extra: &[(&str, MetaValue)]) -> Vec<(String, MetaValue)> {
    let mut v = md(&[
        ("general.architecture", MetaValue::Str("llama".into())),
        ("llama.attention.head_count", MetaValue::U32(32)),
        ("llama.attention.head_count_kv", MetaValue::U32(8)),
        ("llama.block_count", MetaValue::U32(32)),
        ("llama.embedding_length", MetaValue::U32(4096)),
    ]);
    v.extend(md(extra));
    v
}

#[test]
fn batched_runtime_architectures() {
    assert!(arch_supported(&llama_header(&[])));
    assert!(arch_supported(&llama_header(&[("llama.expert_count", MetaValue::U32(1))])));
    assert!(!arch_supported(&llama_header(&[("llama.expert_count", MetaValue::U32(8))])));
    assert!(arch_supported(&md(&[("general.architecture", MetaValue::Str("qwen2".into()))])));
    assert!(!arch_supported(&md(&[("general.architecture", MetaValue::Str("phi3".into()))])));
    assert!(!arch_supported(&md(&[])));
}

#[test]
fn model_shape_reads_hyperparameters() {
    let s = model_shape(&llama_header(&[("llama.rope.dimension_count", MetaValue::U32(64))])).unwrap();
    assert_eq!(s.architecture, "llama");
    assert_eq!((s.n_head, s.n_kv_head, s.n_layers, s.embedding_length), (32, 8, 32, 4096));
    assert_eq!((s.head_dim, s.context_length, s.rope_dim), (128, 4096, 64));
    assert!(!s.qkv_bias);
    assert_eq!(s.rope_style, RopeStyle::Interleaved);

    let q = model_shape(&md(&[
        ("general.architecture", MetaValue::Str("qwen2".into())),
        ("qwen2.attention.head_count", MetaValue::U32(16)),
        ("qwen2.attention.head_count_kv", MetaValue::U32(2)),
        ("qwen2.block_count", MetaValue::U32(24)),
        ("qwen2.embedding_length", MetaValue::U32(896)),
        ("qwen2.context_length", MetaValue::U32(32768)),
    ]))
    .unwrap();
    assert_eq!((q.head_dim, q.rope_dim, q.context_length), (56, 56, 32768));
    assert!(q.qkv_bias);
    assert_eq!(q.rope_style, RopeStyle::Neox);
}

#[test]
fn model_shape_errors() {
    match model_shape(&md(&[("general.architecture", MetaValue::Str("llama".into()))])) {
        Err(Error::Config(m)) => assert_eq!(m, "gguf: missing llama.attention.head_count"),
        other => panic!("unexpected {other:?}"),
    }
    match model_shape(&md(&[])) {
        Err(Error::Config(m)) => assert_eq!(m, "gguf: missing general.architecture"),
        other => panic!("unexpected {other:?}"),
    }
    let phi = md(&[
        ("general.architecture", MetaValue::Str("phi3".into())),
        ("phi3.attention.head_count", MetaValue::U32(32)),
        ("phi3.attention.head_count_kv", MetaValue::U32(32)),
        ("phi3.block_count", MetaValue::U32(32)),
        ("phi3.embedding_length", MetaValue::U32(3072)),
    ]);
    match model_shape(&phi) {
        Err(Error::Config(m)) => assert_eq!(m, "architecture `phi3` is not supported by the batched runtime"),
        other => panic!("unexpected {other:?}"),
    }
}

#[test]
fn tls_flags_come_together() {
    assert!(resolve_tls(None, None, None, "cognitora".into()).unwrap().is_none());
    let t = resolve_tls(Some("ca".into()), Some("c".into()), Some("k".into()), "d".into()).unwrap().unwrap();
    assert_eq!((t.ca.as_str(), t.cert.as_str(), t.key.as_str(), t.domain.as_str()), ("ca", "c", "k", "d"));
    match resolve_tls(Some("ca".into()), None, Some("k".into()), "d".into()) {
        Err(Error::Config(m)) => assert_eq!(m, "--tls-ca, --tls-cert and --tls-key must be given together"),
        other => panic!("unexpected {other:?}"),
    }
}

#[test]
fn runtime_and_model_id_choice() {
    let mut c = EngineConfig::single_node("/m.gguf".into(), Backend::Cpu, 2048, 4);
    assert_eq!(choose_runtime(&c, true), Runtime::Batched);
    assert_eq!(choose_runtime(&c, false), Runtime::Sequential);
    let meta = read_metadata(&md(&[("general.architecture", MetaValue::Str("llama".into()))]), "stem".into()).unwrap();
    assert_eq!(served_model_id(&c, &meta), "stem");
    c.model_id = Some("my-model".into());
    assert_eq!(served_model_id(&c, &meta), "my-model");
    c.pipeline = Some(CoordinatorConfig {
        layers: LayerRange { start: 0, end: 16 },
        workers: vec!["http://w:1".into()],
        encoding: Encoding::F16,
        tls: None,
    });
    assert_eq!(choose_runtime(&c, true), Runtime::Pipelined);
}

#[test]
fn pipeline_flags_by_role() {
    let none: Option<String> = None;
    assert!(pipeline_config(Role::Standalone, None, vec![], Encoding::F16, None, None, None, "d".into()).unwrap().is_none());
    match pipeline_config(Role::Standalone, Some("0:8".into()), vec![], Encoding::F16, None, None, None, "d".into()) {
        Err(Error::Config(m)) => assert_eq!(m, "--workers/--layers require --role coordinator"),
        other => panic!("unexpected {other:?}"),
    }
    match pipeline_config(Role::Coordinator, none.clone(), vec!["http://w:1".into()], Encoding::F16, None, None, None, "d".into()) {
        Err(Error::Config(m)) => assert_eq!(m, "--role coordinator requires --layers A:B"),
        other => panic!("unexpected {other:?}"),
    }
    match pipeline_config(Role::Coordinator, Some("0:8".into()), vec![], Encoding::F16, None, None, None, "d".into()) {
        Err(Error::Config(m)) => assert_eq!(m, "--role coordinator requires at least one --workers endpoint"),
        other => panic!("unexpected {other:?}"),
    }
    match pipeline_config(Role::Coordinator, Some("8:8".into()), vec!["http://w:1".into()], Encoding::F16, None, None, None, "d".into()) {
        Err(Error::InvalidArgument(m)) => assert_eq!(m, "layer range 8:8 is empty"),
        other => panic!("unexpected {other:?}"),
    }
    let c = pipeline_config(Role::Coordinator, Some("0:16".into()), vec!["http://w:1".into()], Encoding::F16, None, None, None, "d".into())
        .unwrap()
        .unwrap();
    assert_eq!((c.layers.start, c.layers.end), (0, 16));
    assert_eq!(c.workers, vec!["http://w:1".to_string()]);
    assert!(c.tls.is_none());
}

#[test]
fn coordinator_carries_the_tls_material() {
    let c = pipeline_config(
        Role::Coordinator,
        Some("0:4".into()),
        vec!["https://w:1".into(), "https://w:2".into()],
        Encoding::F16,
        Some("ca.pem".into()),
        Some("cert.pem".into()),
        Some("key.pem".into()),
        "cluster.local".into(),
    )
    .unwrap()
    .unwrap();
    let t = c.tls.unwrap();
    assert_eq!((t.ca.as_str(), t.cert.as_str(), t.key.as_str(), t.domain.as_str()), ("ca.pem", "cert.pem", "key.pem", "cluster.local"));
    match pipeline_config(Role::Coordinator, Some("0:4".into()), vec!["https://w:1".into()], Encoding::F16, Some("ca.pem".into()), None, None, "d".into()) {
        Err(Error::Config(m)) => assert_eq!(m, "--tls-ca, --tls-cert and --tls-key must be given together"),
        other => panic!("unexpected {other:?}"),
    }
}
