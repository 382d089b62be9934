//! Render the engine command line from an [`EngineConfig`] and a
//! [`ModelSpec`], including the KV-offload connector flags.
//!
//! | engine  | role     | offload     | injected flags                                         |
//! |---------|----------|-------------|--------------------------------------------------------|
//! | vllm    | any      | none        | (nothing)                                              |
//! | vllm    | both     | nixl        | `--kv-transfer-config '{NixlConnector,kv_both}'`       |
//! | vllm    | prefill  | nixl        | `--kv-transfer-config '{NixlConnector,kv_producer}'`   |
//! | vllm    | decode   | nixl        | `--kv-transfer-config '{NixlConnector,kv_consumer}'`   |
//! | vllm    | both     | lmcache     | `--kv-transfer-config '{LMCacheConnectorV1,kv_both}'`  |
//! | vllm    | prefill  | lmcache     | `--kv-transfer-config '{PdConnector(LMCache+Nixl)}'`   |
//! | vllm    | decode   | lmcache     | `--kv-transfer-config '{NixlConnector,kv_both}'`       |
//! | vllm    | any      | kvbm        | `--kv-transfer-config '{DynamoConnector(kvbm),...}'`   |
//! | sglang  | any      | hicache     | `--enable-hierarchical-cache --hicache-* ...`          |
//! | llama_cpp / mlx / openai_compat | any | only `none` is valid                        |
use vstd::prelude::*;

use crate::error::Error;
use crate::text::{chars_of, decimal, push_all, push_decimal, push_str, string_from_chars};

verus! {

/// Which engine the agent supervises.
#[derive(Debug, Clone, Copy, PartialEq, Eq, Structural)]
pub enum EngineKind {
    Vllm,
    Sglang,
    LlamaCpp,
    Mlx,
    OpenaiCompat,
}

/// The KV offload backend (`engine.kv_offload`).
#[derive(Debug, Clone, Copy, PartialEq, Eq, Structural)]
pub enum KvOffload {
    /// No offload (`none`).
    Off,
    Nixl,
    Lmcache,
    Hicache,
    Kvbm,
}

/// The agent's disaggregation role.
#[derive(Debug, Clone, Copy, PartialEq, Eq, Structural)]
pub enum NodeRoleCfg {
    Both,
    Prefill,
    Decode,
}

/// How llama.cpp is launched.
#[derive(Debug, Clone, Copy, PartialEq, Eq, Structural)]
pub enum LlamaCppMode {
    /// `python -m llama_cpp.server`.
    PythonServer,
    /// A standalone `llama-server` binary.
    Binary,
}

/// `[engine.vllm]`.
#[derive(Debug, Clone)]
pub struct VllmEngineConfig {
    pub binary: String,
    pub extra_args: Vec<String>,
}

/// `[engine.sglang]`.
#[derive(Debug, Clone)]
pub struct SglangEngineConfig {
    pub binary: String,
    pub host: String,
    pub port: u16,
    pub context_length: u32,
    /// The static memory fraction, rendered with three decimals (`0.850`).
    pub mem_fraction_static: String,
    pub extra_args: Vec<String>,
}

/// `[engine.llama_cpp]`.
#[derive(Debug, Clone)]
pub struct LlamaCppEngineConfig {
    pub binary: String,
    pub mode: LlamaCppMode,
    pub host: String,
    pub port: u16,
    pub n_ctx: u32,
    pub n_threads: u32,
    pub n_gpu_layers: u32,
    pub extra_args: Vec<String>,
}

/// `[engine.mlx_lm]`.
#[derive(Debug, Clone)]
pub struct MlxLmEngineConfig {
    pub binary: String,
    pub host: String,
    pub port: u16,
    pub extra_args: Vec<String>,
}

/// `[engine]`.
#[derive(Debug, Clone)]
pub struct EngineConfig {
    pub kind: EngineKind,
    pub url: String,
    pub kv_offload: KvOffload,
    pub vllm: VllmEngineConfig,
    pub sglang: SglangEngineConfig,
    pub llama_cpp: LlamaCppEngineConfig,
    pub mlx_lm: MlxLmEngineConfig,
}

/// The model an engine serves.
#[derive(Debug, Clone)]
pub struct ModelSpec {
    pub name: String,
    pub tp: u32,
    pub max_model_len: Option<u32>,
    pub extra_args: Vec<String>,
    /// Local model path, as displayed text.
    pub path: Option<String>,
}

/// One chat turn handed to an engine driver.
#[derive(Debug, Clone)]
pub struct ChatMessage {
    pub role: String,
    pub content: String,
    /// Structured (multimodal) content as JSON text, empty when absent.
    pub content_json: String,
    /// Tool calls of an assistant turn as JSON text, empty when absent.
    pub tool_calls_json: String,
    /// The call a tool turn answers, empty when absent.
    pub tool_call_id: String,
}

/// An embeddings request handed to an engine driver.
#[derive(Debug, Clone)]
pub struct EmbedReq {
    pub model: String,
    pub inputs: Vec<String>,
}

fn lit(s: &str) -> (r: String)
    ensures
        r@ == s@,
{
    String::from_str(s)
}

impl Default for VllmEngineConfig {
    fn default() -> (c: Self)
        ensures
            c.binary@ == "vllm"@,
            c.extra_args@.len() == 0,
    {
        VllmEngineConfig { binary: lit("vllm"), extra_args: Vec::new() }
    }
}

impl Default for SglangEngineConfig {
    fn default() -> (c: Self)
        ensures
            c.binary@ == "python"@,
            c.host@ == "127.0.0.1"@,
            c.port == 30000,
            c.context_length == 8192,
            c.mem_fraction_static@ == "0.850"@,
            c.extra_args@.len() == 0,
    {
        SglangEngineConfig {
            binary: lit("python"),
            host: lit("127.0.0.1"),
            port: 30000,
            context_length: 8192,
            mem_fraction_static: lit("0.850"),
            extra_args: Vec::new(),
        }
    }
}

impl Default for LlamaCppEngineConfig {
    fn default() -> (c: Self)
        ensures
            c.binary@ == "python"@,
            c.mode == LlamaCppMode::PythonServer,
            c.host@ == "127.0.0.1"@,
            c.port == 8000,
            c.n_ctx == 4096,
            c.n_threads == 4,
            c.n_gpu_layers == 0,
            c.extra_args@.len() == 0,
    {
        LlamaCppEngineConfig {
            binary: lit("python"),
            mode: LlamaCppMode::PythonServer,
            host: lit("127.0.0.1"),
            port: 8000,
            n_ctx: 4096,
            n_threads: 4,
            n_gpu_layers: 0,
            extra_args: Vec::new(),
        }
    }
}

impl Default for MlxLmEngineConfig {
    fn default() -> (c: Self)
        ensures
            c.binary@ == "python3"@,
            c.host@ == "127.0.0.1"@,
            c.port == 8090,
            c.extra_args@.len() == 0,
    {
        MlxLmEngineConfig {
            binary: lit("python3"),
            host: lit("127.0.0.1"),
            port: 8090,
            extra_args: Vec::new(),
        }
    }
}

/// Views of a list of strings.
pub open spec fn views(v: Seq<String>) -> Seq<Seq<char>> {
    v.map_values(|s: String| s@)
}

/// True iff the supervisor should fork an engine process.
pub open spec fn spec_should_spawn(kind: EngineKind) -> bool {
    kind != EngineKind::OpenaiCompat
}

/// True iff the supervisor should fork an engine process.
pub fn should_spawn(cfg: &EngineConfig) -> (b: bool)
    ensures
        b == spec_should_spawn(cfg.kind),
{
    match cfg.kind {
        EngineKind::OpenaiCompat => false,
        _ => true,
    }
}

/// The engine × offload pairings that make sense.
pub open spec fn offload_supported(kind: EngineKind, offload: KvOffload) -> bool {
    ||| offload == KvOffload::Off
    ||| kind == EngineKind::Vllm && (offload == KvOffload::Nixl || offload == KvOffload::Lmcache
        || offload == KvOffload::Kvbm)
    ||| kind == EngineKind::Sglang && (offload == KvOffload::Hicache || offload == KvOffload::Nixl)
}

/// Configuration name of an offload backend.
pub open spec fn offload_name(o: KvOffload) -> Seq<char> {
    match o {
        KvOffload::Off => "none"@,
        KvOffload::Nixl => "nixl"@,
        KvOffload::Lmcache => "lmcache"@,
        KvOffload::Hicache => "hicache"@,
        KvOffload::Kvbm => "kvbm"@,
    }
}

/// Configuration name of an engine kind.
pub open spec fn kind_name(k: EngineKind) -> Seq<char> {
    match k {
        EngineKind::Vllm => "vllm"@,
        EngineKind::Sglang => "sglang"@,
        EngineKind::LlamaCpp => "llama_cpp"@,
        EngineKind::Mlx => "mlx"@,
        EngineKind::OpenaiCompat => "openai_compat"@,
    }
}

/// Message for an unsupported pairing.
pub open spec fn offload_message(kind: EngineKind, offload: KvOffload) -> Seq<char> {
    "engine.kv_offload = \""@ + offload_name(offload) + "\" is not supported with engine.kind = \""@
        + kind_name(kind)
        + "\". Valid pairings: vllm × {none,nixl,lmcache,kvbm}, sglang × {none,nixl,hicache}, llama_cpp/mlx/openai_compat × {none}."@
}

impl KvOffload {
    /// The backend's configuration name.
    pub fn as_str(&self) -> (s: &'static str)
        ensures
            s@ == offload_name(*self),
    {
        match self {
            KvOffload::Off => "none",
            KvOffload::Nixl => "nixl",
            KvOffload::Lmcache => "lmcache",
            KvOffload::Hicache => "hicache",
            KvOffload::Kvbm => "kvbm",
        }
    }
}

fn kind_str(k: EngineKind) -> (s: &'static str)
    ensures
        s@ == kind_name(k),
{
    match k {
        EngineKind::Vllm => "vllm",
        EngineKind::Sglang => "sglang",
        EngineKind::LlamaCpp => "llama_cpp",
        EngineKind::Mlx => "mlx",
        EngineKind::OpenaiCompat => "openai_compat",
    }
}

/// Reject engine × kv_offload combinations that don't make sense.
pub fn validate_kv_offload(kind: EngineKind, offload: KvOffload) -> (r: Result<(), Error>)
    ensures
        match r {
            Ok(()) => offload_supported(kind, offload),
            Err(Error::Config(m)) => !offload_supported(kind, offload) && m@ == offload_message(
                kind,
                offload,
            ),
            Err(_) => false,
        },
{
    let ok = match offload {
        KvOffload::Off => true,
        KvOffload::Nixl => match kind {
            EngineKind::Vllm => true,
            EngineKind::Sglang => true,
            _ => false,
        },
        KvOffload::Lmcache => match kind {
            EngineKind::Vllm => true,
            _ => false,
        },
        KvOffload::Kvbm => match kind {
            EngineKind::Vllm => true,
            _ => false,
        },
        KvOffload::Hicache => match kind {
            EngineKind::Sglang => true,
            _ => false,
        },
    };
    if !ok {
        let mut m: Vec<char> = Vec::new();
        push_str(&mut m, "engine.kv_offload = \"");
        push_str(&mut m, offload.as_str());
        push_str(&mut m, "\" is not supported with engine.kind = \"");
        push_str(&mut m, kind_str(kind));
        push_str(
            &mut m,
            "\". Valid pairings: vllm × {none,nixl,lmcache,kvbm}, sglang × {none,nixl,hicache}, llama_cpp/mlx/openai_compat × {none}.",
        );
        assert(m@ =~= offload_message(kind, offload));
        return Err(Error::Config(string_from_chars(m.as_slice())));
    }
    Ok(())
}

/// The `--kv-transfer-config` JSON for vLLM, or `None` when no
/// connector is injected.
pub open spec fn spec_vllm_kv_transfer_config(role: NodeRoleCfg, offload: KvOffload) -> Option<Seq<char>> {
    match offload {
        KvOffload::Off => None,
        KvOffload::Hicache => None,
        KvOffload::Nixl => Some(
            match role {
                NodeRoleCfg::Both => "{\"kv_connector\":\"NixlConnector\",\"kv_role\":\"kv_both\"}"@,
                NodeRoleCfg::Prefill => "{\"kv_connector\":\"NixlConnector\",\"kv_role\":\"kv_producer\"}"@,
                NodeRoleCfg::Decode => "{\"kv_connector\":\"NixlConnector\",\"kv_role\":\"kv_consumer\"}"@,
            },
        ),
        KvOffload::Lmcache => Some(
            match role {
                NodeRoleCfg::Both => "{\"kv_connector\":\"LMCacheConnectorV1\",\"kv_role\":\"kv_both\"}"@,
                NodeRoleCfg::Prefill => "{\"kv_connector\":\"PdConnector\",\"kv_role\":\"kv_both\",\"kv_connector_extra_config\":{\"connectors\":[{\"kv_connector\":\"LMCacheConnectorV1\",\"kv_role\":\"kv_both\"},{\"kv_connector\":\"NixlConnector\",\"kv_role\":\"kv_both\"}]}}"@,
                NodeRoleCfg::Decode => "{\"kv_connector\":\"NixlConnector\",\"kv_role\":\"kv_consumer\"}"@,
            },
        ),
        KvOffload::Kvbm => Some(
            match role {
                NodeRoleCfg::Both => "{\"kv_connector\":\"DynamoConnector\",\"kv_role\":\"kv_both\",\"kv_connector_module_path\":\"kvbm.vllm_integration.connector\"}"@,
                NodeRoleCfg::Prefill => "{\"kv_connector\":\"DynamoConnector\",\"kv_role\":\"kv_producer\",\"kv_connector_module_path\":\"kvbm.vllm_integration.connector\"}"@,
                NodeRoleCfg::Decode => "{\"kv_connector\":\"DynamoConnector\",\"kv_role\":\"kv_consumer\",\"kv_connector_module_path\":\"kvbm.vllm_integration.connector\"}"@,
            },
        ),
    }
}

/// Build the JSON blob for vLLM's `--kv-transfer-config`.
pub fn vllm_kv_transfer_config(role: NodeRoleCfg, offload: KvOffload) -> (r: Option<String>)
    ensures
        match r {
            Some(s) => spec_vllm_kv_transfer_config(role, offload) == Some(s@),
            None => spec_vllm_kv_transfer_config(role, offload) is None,
        },
{
    match offload {
        KvOffload::Off => None,
        KvOffload::Hicache => None,
        KvOffload::Nixl => Some(
            match role {
                NodeRoleCfg::Both => lit("{\"kv_connector\":\"NixlConnector\",\"kv_role\":\"kv_both\"}"),
                NodeRoleCfg::Prefill => lit("{\"kv_connector\":\"NixlConnector\",\"kv_role\":\"kv_producer\"}"),
                NodeRoleCfg::Decode => lit("{\"kv_connector\":\"NixlConnector\",\"kv_role\":\"kv_consumer\"}"),
            },
        ),
        KvOffload::Lmcache => Some(
            match role {
                NodeRoleCfg::Both => lit("{\"kv_connector\":\"LMCacheConnectorV1\",\"kv_role\":\"kv_both\"}"),
                NodeRoleCfg::Prefill => lit("{\"kv_connector\":\"PdConnector\",\"kv_role\":\"kv_both\",\"kv_connector_extra_config\":{\"connectors\":[{\"kv_connector\":\"LMCacheConnectorV1\",\"kv_role\":\"kv_both\"},{\"kv_connector\":\"NixlConnector\",\"kv_role\":\"kv_both\"}]}}"),
                NodeRoleCfg::Decode => lit("{\"kv_connector\":\"NixlConnector\",\"kv_role\":\"kv_consumer\"}"),
            },
        ),
        KvOffload::Kvbm => Some(
            match role {
                NodeRoleCfg::Both => lit("{\"kv_connector\":\"DynamoConnector\",\"kv_role\":\"kv_both\",\"kv_connector_module_path\":\"kvbm.vllm_integration.connector\"}"),
                NodeRoleCfg::Prefill => lit("{\"kv_connector\":\"DynamoConnector\",\"kv_role\":\"kv_producer\",\"kv_connector_module_path\":\"kvbm.vllm_integration.connector\"}"),
                NodeRoleCfg::Decode => lit("{\"kv_connector\":\"DynamoConnector\",\"kv_role\":\"kv_consumer\",\"kv_connector_module_path\":\"kvbm.vllm_integration.connector\"}"),
            },
        ),
    }
}

/// SGLang HiCache flags for the offload setting.
pub open spec fn spec_sglang_hicache_args(offload: KvOffload) -> Seq<Seq<char>> {
    if offload == KvOffload::Hicache {
        seq![
            "--enable-hierarchical-cache"@,
            "--hicache-ratio"@,
            "2"@,
            "--hicache-write-policy"@,
            "write_through"@,
            "--hicache-storage-backend"@,
            "nixl"@,
        ]
    } else {
        Seq::empty()
    }
}

fn push_lit(argv: &mut Vec<String>, s: &str)
    ensures
        views(final(argv)@) == views(old(argv)@).push(s@),
{
    argv.push(lit(s));
    assert(views(argv@) =~= views(old(argv)@).push(s@));
}

fn push_string(argv: &mut Vec<String>, s: String)
    ensures
        views(final(argv)@) == views(old(argv)@).push(s@),
{
    argv.push(s);
    assert(views(argv@) =~= views(old(argv)@).push(s@));
}

fn push_num(argv: &mut Vec<String>, n: u64)
    ensures
        views(final(argv)@) == views(old(argv)@).push(decimal(n as nat)),
{
    push_string(argv, crate::text::decimal_string(n));
}

fn extend_strings(argv: &mut Vec<String>, more: &Vec<String>)
    ensures
        views(final(argv)@) == views(old(argv)@) + views(more@),
{
    let mut i: usize = 0;
    while i < more.len()
        invariant
            i <= more@.len(),
            views(argv@) == views(old(argv)@) + views(more@.take(i as int)),
        decreases more@.len() - i,
    {
        push_string(argv, more[i].clone());
        i = i + 1;
        assert(views(argv@) =~= views(old(argv)@) + views(more@.take(i as int)));
    }
    assert(more@.take(more@.len() as int) =~= more@);
}

/// Sglang HiCache flags.
pub fn sglang_hicache_args(offload: KvOffload) -> (v: Vec<String>)
    ensures
        views(v@) == spec_sglang_hicache_args(offload),
{
    let mut v: Vec<String> = Vec::new();
    match offload {
        KvOffload::Hicache => {
            push_lit(&mut v, "--enable-hierarchical-cache");
            push_lit(&mut v, "--hicache-ratio");
            push_lit(&mut v, "2");
            push_lit(&mut v, "--hicache-write-policy");
            push_lit(&mut v, "write_through");
            push_lit(&mut v, "--hicache-storage-backend");
            push_lit(&mut v, "nixl");
        },
        _ => {},
    }
    assert(views(v@) =~= spec_sglang_hicache_args(offload));
    v
}

/// `--max-model-len <len>` when the model sets one.
pub open spec fn max_len_args(spec: ModelSpec) -> Seq<Seq<char>> {
    match spec.max_model_len {
        Some(l) => seq!["--max-model-len"@, decimal(l as nat)],
        None => Seq::empty(),
    }
}

/// The vLLM argv.
pub open spec fn spec_render_vllm(cfg: EngineConfig, spec: ModelSpec, role: NodeRoleCfg) -> Seq<Seq<char>> {
    seq![cfg.vllm.binary@, "serve"@, spec.name@, "--tensor-parallel-size"@, decimal(spec.tp as nat)]
        + max_len_args(spec) + match spec_vllm_kv_transfer_config(role, cfg.kv_offload) {
        Some(j) => seq!["--kv-transfer-config"@, j],
        None => Seq::empty(),
    } + views(cfg.vllm.extra_args@) + views(spec.extra_args@)
}

/// The path when present, else the model name.
pub open spec fn path_or_name(spec: ModelSpec) -> Seq<char> {
    match spec.path {
        Some(p) => p@,
        None => spec.name@,
    }
}

/// The SGLang argv.
pub open spec fn spec_render_sglang(cfg: EngineConfig, spec: ModelSpec) -> Seq<Seq<char>> {
    let ctx = match spec.max_model_len {
        Some(l) => l,
        None => cfg.sglang.context_length,
    };
    seq![
        cfg.sglang.binary@,
        "-m"@,
        "sglang.launch_server"@,
        "--model-path"@,
        path_or_name(spec),
        "--served-model-name"@,
        spec.name@,
        "--tp"@,
        decimal(spec.tp as nat),
        "--host"@,
        cfg.sglang.host@,
        "--port"@,
        decimal(cfg.sglang.port as nat),
        "--context-length"@,
        decimal(ctx as nat),
        "--mem-fraction-static"@,
        cfg.sglang.mem_fraction_static@,
    ] + spec_sglang_hicache_args(cfg.kv_offload) + views(cfg.sglang.extra_args@) + views(
        spec.extra_args@,
    )
}

/// The llama.cpp argv, given the model path.
pub open spec fn spec_render_llama_cpp(cfg: EngineConfig, spec: ModelSpec, path: Seq<char>) -> Seq<Seq<char>> {
    let ctx = match spec.max_model_len {
        Some(l) => l,
        None => cfg.llama_cpp.n_ctx,
    };
    let c = cfg.llama_cpp;
    (match c.mode {
        LlamaCppMode::PythonServer => seq![
            c.binary@,
            "-m"@,
            "llama_cpp.server"@,
            "--host"@,
            c.host@,
            "--port"@,
            decimal(c.port as nat),
            "--model"@,
            path,
            "--model_alias"@,
            spec.name@,
            "--n_ctx"@,
            decimal(ctx as nat),
            "--n_threads"@,
            decimal(c.n_threads as nat),
            "--n_gpu_layers"@,
            decimal(c.n_gpu_layers as nat),
        ],
        LlamaCppMode::Binary => seq![
            c.binary@,
            "--model"@,
            path,
            "--host"@,
            c.host@,
            "--port"@,
            decimal(c.port as nat),
            "--ctx-size"@,
            decimal(ctx as nat),
            "--threads"@,
            decimal(c.n_threads as nat),
            "--n-gpu-layers"@,
            decimal(c.n_gpu_layers as nat),
        ],
    }) + views(c.extra_args@) + views(spec.extra_args@)
}

/// The mlx_lm argv.
pub open spec fn spec_render_mlx(cfg: EngineConfig, spec: ModelSpec) -> Seq<Seq<char>> {
    seq![
        cfg.mlx_lm.binary@,
        "-m"@,
        "mlx_lm.server"@,
        "--model"@,
        path_or_name(spec),
        "--host"@,
        cfg.mlx_lm.host@,
        "--port"@,
        decimal(cfg.mlx_lm.port as nat),
    ] + views(cfg.mlx_lm.extra_args@) + views(spec.extra_args@)
}

fn render_vllm(cfg: &EngineConfig, spec: &ModelSpec, role: NodeRoleCfg) -> (v: Vec<String>)
    ensures
        views(v@) == spec_render_vllm(*cfg, *spec, role),
{
    let mut argv: Vec<String> = Vec::new();
    push_string(&mut argv, cfg.vllm.binary.clone());
    push_lit(&mut argv, "serve");
    push_string(&mut argv, spec.name.clone());
    push_lit(&mut argv, "--tensor-parallel-size");
    push_num(&mut argv, spec.tp as u64);
    let ghost a0 = views(argv@);
    match spec.max_model_len {
        Some(len) => {
            push_lit(&mut argv, "--max-model-len");
            push_num(&mut argv, len as u64);
        },
        None => {},
    }
    let ghost a1 = views(argv@);
    match vllm_kv_transfer_config(role, cfg.kv_offload) {
        Some(json) => {
            push_lit(&mut argv, "--kv-transfer-config");
            push_string(&mut argv, json);
        },
        None => {},
    }
    let ghost a2 = views(argv@);
    extend_strings(&mut argv, &cfg.vllm.extra_args);
    extend_strings(&mut argv, &spec.extra_args);
    assert(a1 =~= a0 + max_len_args(*spec));
    assert(views(argv@) =~= spec_render_vllm(*cfg, *spec, role));
    argv
}

fn path_or_name_string(spec: &ModelSpec) -> (s: String)
    ensures
        s@ == path_or_name(*spec),
{
    match &spec.path {
        Some(p) => p.clone(),
        None => spec.name.clone(),
    }
}

fn render_sglang(cfg: &EngineConfig, spec: &ModelSpec) -> (v: Vec<String>)
    ensures
        views(v@) == spec_render_sglang(*cfg, *spec),
{
    let ctx = match spec.max_model_len {
        Some(l) => l,
        None => cfg.sglang.context_length,
    };
    let mut argv: Vec<String> = Vec::new();
    push_string(&mut argv, cfg.sglang.binary.clone());
    push_lit(&mut argv, "-m");
    push_lit(&mut argv, "sglang.launch_server");
    push_lit(&mut argv, "--model-path");
    push_string(&mut argv, path_or_name_string(spec));
    push_lit(&mut argv, "--served-model-name");
    push_string(&mut argv, spec.name.clone());
    push_lit(&mut argv, "--tp");
    push_num(&mut argv, spec.tp as u64);
    push_lit(&mut argv, "--host");
    push_string(&mut argv, cfg.sglang.host.clone());
    push_lit(&mut argv, "--port");
    push_num(&mut argv, cfg.sglang.port as u64);
    push_lit(&mut argv, "--context-length");
    push_num(&mut argv, ctx as u64);
    push_lit(&mut argv, "--mem-fraction-static");
    push_string(&mut argv, cfg.sglang.mem_fraction_static.clone());
    let hicache = sglang_hicache_args(cfg.kv_offload);
    extend_strings(&mut argv, &hicache);
    extend_strings(&mut argv, &cfg.sglang.extra_args);
    extend_strings(&mut argv, &spec.extra_args);
    assert(views(argv@) =~= spec_render_sglang(*cfg, *spec));
    argv
}

/// Message for a llama.cpp model without a path.
pub open spec fn missing_path_message(name: Seq<char>) -> Seq<char> {
    "engine.kind = llama_cpp requires [models.\""@ + name + "\"].path = <gguf>"@
}

fn render_llama_cpp(cfg: &EngineConfig, spec: &ModelSpec) -> (r: Result<Vec<String>, Error>)
    ensures
        match r {
            Ok(v) => spec.path is Some && views(v@) == spec_render_llama_cpp(
                *cfg,
                *spec,
                spec.path->0@,
            ),
            Err(Error::Config(m)) => spec.path is None && m@ == missing_path_message(spec.name@),
            Err(_) => false,
        },
{
    let path = match &spec.path {
        Some(p) => p.clone(),
        None => {
            let mut m: Vec<char> = Vec::new();
            push_str(&mut m, "engine.kind = llama_cpp requires [models.\"");
            push_str(&mut m, spec.name.as_str());
            push_str(&mut m, "\"].path = <gguf>");
            assert(m@ =~= missing_path_message(spec.name@));
            return Err(Error::Config(string_from_chars(m.as_slice())));
        },
    };
    let c = &cfg.llama_cpp;
    let ctx = match spec.max_model_len {
        Some(l) => l,
        None => c.n_ctx,
    };
    let mut argv: Vec<String> = Vec::new();
    match c.mode {
        LlamaCppMode::PythonServer => {
            push_string(&mut argv, c.binary.clone());
            push_lit(&mut argv, "-m");
            push_lit(&mut argv, "llama_cpp.server");
            push_lit(&mut argv, "--host");
            push_string(&mut argv, c.host.clone());
            push_lit(&mut argv, "--port");
            push_num(&mut argv, c.port as u64);
            push_lit(&mut argv, "--model");
            push_string(&mut argv, path);
            push_lit(&mut argv, "--model_alias");
            push_string(&mut argv, spec.name.clone());
            push_lit(&mut argv, "--n_ctx");
            push_num(&mut argv, ctx as u64);
            push_lit(&mut argv, "--n_threads");
            push_num(&mut argv, c.n_threads as u64);
            push_lit(&mut argv, "--n_gpu_layers");
            push_num(&mut argv, c.n_gpu_layers as u64);
        },
        LlamaCppMode::Binary => {
            push_string(&mut argv, c.binary.clone());
            push_lit(&mut argv, "--model");
            push_string(&mut argv, path);
            push_lit(&mut argv, "--host");
            push_string(&mut argv, c.host.clone());
            push_lit(&mut argv, "--port");
            push_num(&mut argv, c.port as u64);
            push_lit(&mut argv, "--ctx-size");
            push_num(&mut argv, ctx as u64);
            push_lit(&mut argv, "--threads");
            push_num(&mut argv, c.n_threads as u64);
            push_lit(&mut argv, "--n-gpu-layers");
            push_num(&mut argv, c.n_gpu_layers as u64);
        },
    }
    extend_strings(&mut argv, &c.extra_args);
    extend_strings(&mut argv, &spec.extra_args);
    assert(views(argv@) =~= spec_render_llama_cpp(*cfg, *spec, spec.path->0@));
    Ok(argv)
}

fn render_mlx(cfg: &EngineConfig, spec: &ModelSpec) -> (v: Vec<String>)
    ensures
        views(v@) == spec_render_mlx(*cfg, *spec),
{
    let mut argv: Vec<String> = Vec::new();
    push_string(&mut argv, cfg.mlx_lm.binary.clone());
    push_lit(&mut argv, "-m");
    push_lit(&mut argv, "mlx_lm.server");
    push_lit(&mut argv, "--model");
    push_string(&mut argv, path_or_name_string(spec));
    push_lit(&mut argv, "--host");
    push_string(&mut argv, cfg.mlx_lm.host.clone());
    push_lit(&mut argv, "--port");
    push_num(&mut argv, cfg.mlx_lm.port as u64);
    extend_strings(&mut argv, &cfg.mlx_lm.extra_args);
    extend_strings(&mut argv, &spec.extra_args);
    assert(views(argv@) =~= spec_render_mlx(*cfg, *spec));
    argv
}

/// `s` with every non-overlapping occurrence of `pat` (scanning left to
/// right) replaced by `rep`.
pub open spec fn replace_all(s: Seq<char>, pat: Seq<char>, rep: Seq<char>) -> Seq<char>
    decreases s.len(),
{
    if s.len() == 0 || pat.len() == 0 {
        s
    } else if pat.len() <= s.len() && s.take(pat.len() as int) == pat {
        rep + replace_all(s.skip(pat.len() as int), pat, rep)
    } else {
        seq![s[0]] + replace_all(s.drop_first(), pat, rep)
    }
}

fn matches_at(s: &[char], i: usize, pat: &[char]) -> (b: bool)
    requires
        i <= s@.len(),
    ensures
        b == (pat@.len() <= s@.len() - i && s@.skip(i as int).take(pat@.len() as int) == pat@),
{
    if s.len() - i < pat.len() {
        return false;
    }
    let mut j: usize = 0;
    while j < pat.len()
        invariant
            i + pat@.len() <= s@.len(),
            pat@.len() <= s.len() - i,
            j <= pat@.len(),
            forall|k: int| 0 <= k < j ==> s@[i + k] == pat@[k],
        decreases pat@.len() - j,
    {
        if s[i + j] != pat[j] {
            assert(s@.skip(i as int).take(pat@.len() as int)[j as int] != pat@[j as int]);
            return false;
        }
        j = j + 1;
    }
    assert(s@.skip(i as int).take(pat@.len() as int) =~= pat@);
    true
}

pub(crate) fn replace_chars(s: &[char], pat: &[char], rep: &[char]) -> (out: Vec<char>)
    requires
        pat@.len() > 0,
    ensures
        out@ == replace_all(s@, pat@, rep@),
{
    let mut out: Vec<char> = Vec::new();
    let mut i: usize = 0;
    assert(s@.skip(0) =~= s@);
    assert(out@ + replace_all(s@, pat@, rep@) =~= replace_all(s@, pat@, rep@));
    while i < s.len()
        invariant
            i <= s@.len(),
            pat@.len() > 0,
            out@ + replace_all(s@.skip(i as int), pat@, rep@) == replace_all(s@, pat@, rep@),
        decreases s@.len() - i,
    {
        let ghost before = out@;
        let ghost rest = s@.skip(i as int);
        if matches_at(s, i, pat) {
            push_all(&mut out, rep);
            assert(rest.skip(pat@.len() as int) =~= s@.skip(i + pat@.len()));
            i = i + pat.len();
        } else {
            out.push(s[i]);
            assert(rest.drop_first() =~= s@.skip(i + 1));
            assert(rest[0] == s@[i as int]);
            i = i + 1;
        }
        assert(out@ + replace_all(s@.skip(i as int), pat@, rep@) =~= before + replace_all(
            rest,
            pat@,
            rep@,
        ));
    }
    assert(out@ + replace_all(s@.skip(i as int), pat@, rep@) =~= out@);
    out
}

/// The legacy-template argv: `{model}` then `{tp}` substituted in every
/// argument, then the length flag and the model's extra arguments.
pub open spec fn spec_render_legacy(template: Seq<Seq<char>>, spec: ModelSpec) -> Seq<Seq<char>> {
    template.map_values(
        |a: Seq<char>|
            replace_all(replace_all(a, "{model}"@, spec.name@), "{tp}"@, decimal(spec.tp as nat)),
    ) + max_len_args(spec) + views(spec.extra_args@)
}

fn render_legacy(template: &[String], spec: &ModelSpec) -> (v: Vec<String>)
    ensures
        views(v@) == spec_render_legacy(views(template@), *spec),
{
    let model_pat = chars_of("{model}");
    let tp_pat = chars_of("{tp}");
    let name = chars_of(spec.name.as_str());
    let tp_text = crate::text::decimal_string(spec.tp as u64);
    let tp_chars = chars_of(tp_text.as_str());
    let mut argv: Vec<String> = Vec::new();
    let mut i: usize = 0;
    while i < template.len()
        invariant
            i <= template@.len(),
            model_pat@ == "{model}"@,
            tp_pat@ == "{tp}"@,
            name@ == spec.name@,
            tp_chars@ == decimal(spec.tp as nat),
            views(argv@) == views(template@).take(i as int).map_values(
                |a: Seq<char>|
                    replace_all(replace_all(a, "{model}"@, spec.name@), "{tp}"@, decimal(spec.tp as nat)),
            ),
        decreases template@.len() - i,
    {
        let a = chars_of(template[i].as_str());
        proof {
            reveal_strlit("{model}");
            reveal_strlit("{tp}");
        }
        let step1 = replace_chars(a.as_slice(), model_pat.as_slice(), name.as_slice());
        let step2 = replace_chars(step1.as_slice(), tp_pat.as_slice(), tp_chars.as_slice());
        push_string(&mut argv, string_from_chars(step2.as_slice()));
        i = i + 1;
        assert(views(argv@) =~= views(template@).take(i as int).map_values(
            |a: Seq<char>|
                replace_all(replace_all(a, "{model}"@, spec.name@), "{tp}"@, decimal(spec.tp as nat)),
        ));
    }
    let ghost a0 = views(argv@);
    match spec.max_model_len {
        Some(len) => {
            push_lit(&mut argv, "--max-model-len");
            push_num(&mut argv, len as u64);
        },
        None => {},
    }
    extend_strings(&mut argv, &spec.extra_args);
    assert(views(template@).take(template@.len() as int) =~= views(template@));
    assert(views(argv@) =~= spec_render_legacy(views(template@), *spec));
    argv
}

/// Message when asked to spawn an externally managed engine.
pub open spec fn no_spawn_message() -> Seq<char> {
    "engine.kind = openai_compat does not spawn — caller should check should_spawn()"@
}

/// The full render: the offload pairing is validated first, a non-empty
/// legacy template wins, otherwise the engine kind picks the argv shape.
pub open spec fn spec_render_argv(
    cfg: EngineConfig,
    spec: ModelSpec,
    role: NodeRoleCfg,
    legacy: Option<Seq<Seq<char>>>,
) -> Result<Seq<Seq<char>>, Seq<char>> {
    if !offload_supported(cfg.kind, cfg.kv_offload) {
        Err(offload_message(cfg.kind, cfg.kv_offload))
    } else if legacy matches Some(l) && l.len() > 0 {
        Ok(spec_render_legacy(legacy->0, spec))
    } else {
        match cfg.kind {
            EngineKind::Vllm => Ok(spec_render_vllm(cfg, spec, role)),
            EngineKind::Sglang => Ok(spec_render_sglang(cfg, spec)),
            EngineKind::LlamaCpp => match spec.path {
                Some(p) => Ok(spec_render_llama_cpp(cfg, spec, p@)),
                None => Err(missing_path_message(spec.name@)),
            },
            EngineKind::Mlx => Ok(spec_render_mlx(cfg, spec)),
            EngineKind::OpenaiCompat => Err(no_spawn_message()),
        }
    }
}

/// Render the argv for the engine child process.
pub fn render_argv(cfg: &EngineConfig, spec: &ModelSpec, role: NodeRoleCfg, legacy_cmd: Option<
    &[String],
>) -> (r: Result<Vec<String>, Error>)
    ensures
        match r {
            Ok(v) => spec_render_argv(
                *cfg,
                *spec,
                role,
                match legacy_cmd {
                    Some(l) => Some(views(l@)),
                    None => None,
                },
            ) == Ok::<Seq<Seq<char>>, Seq<char>>(views(v@)),
            Err(Error::Config(m)) => spec_render_argv(
                *cfg,
                *spec,
                role,
                match legacy_cmd {
                    Some(l) => Some(views(l@)),
                    None => None,
                },
            ) == Err::<Seq<Seq<char>>, Seq<char>>(m@),
            Err(_) => false,
        },
{
    match validate_kv_offload(cfg.kind, cfg.kv_offload) {
        Ok(()) => {},
        Err(e) => return Err(e),
    }
    match legacy_cmd {
        Some(legacy) => {
            if legacy.len() > 0 {
                return Ok(render_legacy(legacy, spec));
            }
        },
        None => {},
    }
    match cfg.kind {
        EngineKind::Vllm => Ok(render_vllm(cfg, spec, role)),
        EngineKind::Sglang => Ok(render_sglang(cfg, spec)),
        EngineKind::LlamaCpp => render_llama_cpp(cfg, spec),
        EngineKind::Mlx => Ok(render_mlx(cfg, spec)),
        EngineKind::OpenaiCompat => Err(
            Error::Config(
                lit("engine.kind = openai_compat does not spawn — caller should check should_spawn()"),
            ),
        ),
    }
}

/// Whether `text` parses as JSON (`serde_json::from_str` into a
/// `serde_json::Value` succeeds).
pub uninterp spec fn json_valid(text: Seq<char>) -> bool;

/// Calls `serde_json::from_str::<serde_json::Value>` and reports whether
/// it succeeded. Claimed: the answer depends on the text alone (named
/// above); which texts parse is not restated.
#[verifier::external_body]
fn json_parses(text: &str) -> (b: bool)
    ensures
        b == json_valid(text@),
{
    serde_json::from_str::<serde_json::Value>(text).is_ok()
}

/// Which optional parts of a chat message go into its OpenAI JSON.
#[derive(Debug, Clone, Copy, PartialEq, Eq, Structural)]
pub struct MessageFields {
    /// The structured content (its JSON text) replaces the plain text.
    pub structured: bool,
    /// The tool calls (their JSON text) are attached.
    pub tool_calls: bool,
    /// The id of the call a tool turn answers is attached.
    pub tool_call_id: bool,
}

/// How a chat message is rendered as OpenAI JSON: its structured
/// (multimodal) content when present and valid JSON, else its plain
/// text; its tool calls when present and valid JSON; its tool-call id
/// when present.
pub fn message_fields(m: &ChatMessage) -> (f: MessageFields)
    ensures
        f.structured == (m.content_json@.len() > 0 && json_valid(m.content_json@)),
        f.tool_calls == (m.tool_calls_json@.len() > 0 && json_valid(m.tool_calls_json@)),
        f.tool_call_id == (m.tool_call_id@.len() > 0),
{
    let structured = !m.content_json.as_str().is_empty() && json_parses(m.content_json.as_str());
    let tool_calls = !m.tool_calls_json.as_str().is_empty() && json_parses(m.tool_calls_json.as_str());
    let tool_call_id = !m.tool_call_id.as_str().is_empty();
    MessageFields { structured, tool_calls, tool_call_id }
}

} // verus!
