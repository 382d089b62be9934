//! Startup configuration of the single-binary inference server, and the
//! GGUF header metadata the engine cares about.
use vstd::prelude::*;

use crate::error::Error;
use crate::layers::{spec_parse_range, LayerRange};
use crate::text::{chars_of, push_all, push_str, string_from_chars};

verus! {

/// Compute backend selection, resolved against the compiled features at
/// startup.
#[derive(Debug, Clone, Copy, PartialEq, Eq, Structural)]
pub enum Backend {
    /// Pick the best available: Metal > CUDA > CPU.
    Auto,
    Cpu,
    Metal,
    Cuda,
}

impl Default for Backend {
    fn default() -> (b: Self)
        ensures
            b == Backend::Auto,
    {
        Backend::Auto
    }
}

/// Wire encoding for hidden states between pipeline stages.
#[derive(Debug, Clone, Copy, PartialEq, Eq, Structural)]
pub enum Encoding {
    /// 2 bytes per value.
    F16,
    /// 1 byte per value plus a per-tensor scale.
    Int8,
}

impl Default for Encoding {
    fn default() -> (e: Self)
        ensures
            e == Encoding::F16,
    {
        Encoding::F16
    }
}

/// mTLS material shared by coordinator and worker (paths as text).
#[derive(Debug, Clone)]
pub struct TlsPaths {
    pub ca: String,
    pub cert: String,
    pub key: String,
    /// SNI / certificate domain expected on peers.
    pub domain: String,
}

/// The coordinator side of a layer pipeline.
#[derive(Debug, Clone)]
pub struct CoordinatorConfig {
    /// Layer slice run locally by the coordinator; must start at 0.
    pub layers: LayerRange,
    /// Worker endpoints in pipeline order (`http://` or `https://`).
    pub workers: Vec<String>,
    pub encoding: Encoding,
    pub tls: Option<TlsPaths>,
}

/// Startup configuration (from the command line).
#[derive(Debug, Clone)]
pub struct EngineConfig {
    /// Path of the GGUF file, as text.
    pub model_path: String,
    pub backend: Backend,
    /// Context window; clamped to the model's training context.
    pub ctx: usize,
    /// CPU threads for the compute backend (0 = all cores).
    pub threads: usize,
    /// Model id reported by /v1/models; defaults to the GGUF name.
    pub model_id: Option<String>,
    /// Max sequences decoded per step (subject to the runtime's own cap).
    pub max_batch: usize,
    /// Prefill chunk size in tokens.
    pub prefill_chunk: usize,
    /// KV pool budget in tokens shared by all resident sequences.
    pub kv_pool_tokens: usize,
    /// Pipeline workers; none means single-node.
    pub pipeline: Option<CoordinatorConfig>,
}

impl EngineConfig {
    /// A single-node configuration: batches of 8, prefill chunks of 512
    /// tokens, a 64 Ki-token KV pool, no pipeline and the GGUF's own name.
    pub fn single_node(model_path: String, backend: Backend, ctx: usize, threads: usize) -> (c: Self)
        ensures
            c.model_path == model_path,
            c.backend == backend,
            c.ctx == ctx,
            c.threads == threads,
            c.model_id is None,
            c.max_batch == 8,
            c.prefill_chunk == 512,
            c.kv_pool_tokens == 64 * 1024,
            c.pipeline is None,
    {
        EngineConfig {
            model_path,
            backend,
            ctx,
            threads,
            model_id: None,
            max_batch: 8,
            prefill_chunk: 512,
            kv_pool_tokens: 64 * 1024,
            pipeline: None,
        }
    }
}

/// Metadata extracted from the GGUF header that the rest of the engine
/// cares about.
#[derive(Debug, Clone)]
pub struct ModelMetadata {
    /// `general.architecture`, e.g. "llama".
    pub architecture: String,
    /// `general.name` if present, otherwise the file stem.
    pub name: String,
    /// Training context length (`{arch}.context_length`).
    pub context_length: usize,
    /// BOS / EOS token ids from `tokenizer.ggml.*`.
    pub bos_token_id: Option<u32>,
    pub eos_token_id: Option<u32>,
    /// Raw Jinja chat template (`tokenizer.chat_template`), if embedded.
    pub chat_template: Option<String>,
}

/// A GGUF metadata value, as far as the engine reads it.
#[derive(Debug, Clone)]
pub enum MetaValue {
    U32(u32),
    Str(String),
    /// Any other GGUF value type.
    Other,
}

/// The value stored under `key` (the first entry with that key; a GGUF
/// header holds each key once).
pub open spec fn meta_get(md: Seq<(String, MetaValue)>, key: Seq<char>) -> Option<MetaValue>
    decreases md.len(),
{
    if md.len() == 0 {
        None
    } else if md[0].0@ == key {
        Some(md[0].1)
    } else {
        meta_get(md.drop_first(), key)
    }
}

/// The string stored under `key`, if it is a string.
pub open spec fn meta_str(md: Seq<(String, MetaValue)>, key: Seq<char>) -> Option<Seq<char>> {
    match meta_get(md, key) {
        Some(MetaValue::Str(s)) => Some(s@),
        _ => None,
    }
}

/// The `u32` stored under `key`, if it is one.
pub open spec fn meta_u32(md: Seq<(String, MetaValue)>, key: Seq<char>) -> Option<u32> {
    match meta_get(md, key) {
        Some(MetaValue::U32(v)) => Some(v),
        _ => None,
    }
}

fn same_text(a: &[char], b: &[char]) -> (r: bool)
    ensures
        r == (a@ == b@),
{
    if a.len() != b.len() {
        return false;
    }
    let mut i: usize = 0;
    while i < a.len()
        invariant
            a@.len() == b@.len(),
            i <= a@.len(),
            forall|k: int| 0 <= k < i ==> a@[k] == b@[k],
        decreases a@.len() - i,
    {
        if a[i] != b[i] {
            return false;
        }
        i = i + 1;
    }
    assert(a@ =~= b@);
    true
}

/// The entry stored under `key`.
fn lookup<'a>(md: &'a [(String, MetaValue)], key: &[char]) -> (r: Option<&'a MetaValue>)
    ensures
        match r {
            Some(v) => meta_get(md@, key@) == Some(*v),
            None => meta_get(md@, key@) is None,
        },
{
    let mut i: usize = 0;
    assert(md@.skip(0) =~= md@);
    while i < md.len()
        invariant
            i <= md@.len(),
            meta_get(md@, key@) == meta_get(md@.skip(i as int), key@),
        decreases md@.len() - i,
    {
        let k = chars_of(md[i].0.as_str());
        assert(md@.skip(i as int)[0] == md@[i as int]);
        if same_text(k.as_slice(), key) {
            return Some(&md[i].1);
        }
        assert(md@.skip(i as int).drop_first() =~= md@.skip(i + 1));
        i = i + 1;
    }
    None
}

fn lookup_str(md: &[(String, MetaValue)], key: &str) -> (r: Option<String>)
    ensures
        match r {
            Some(s) => meta_str(md@, key@) == Some(s@),
            None => meta_str(md@, key@) is None,
        },
{
    let k = chars_of(key);
    match lookup(md, k.as_slice()) {
        Some(MetaValue::Str(s)) => Some(string_from_chars(chars_of(s.as_str()).as_slice())),
        _ => None,
    }
}

fn lookup_u32(md: &[(String, MetaValue)], key: &[char]) -> (r: Option<u32>)
    ensures
        r == meta_u32(md@, key@),
{
    match lookup(md, key) {
        Some(MetaValue::U32(v)) => Some(*v),
        _ => None,
    }
}

/// The `{architecture}.context_length` key.
pub open spec fn context_key(arch: Seq<char>) -> Seq<char> {
    arch + ".context_length"@
}

/// What [`read_metadata`] extracts, given the architecture.
pub open spec fn metadata_of(md: Seq<(String, MetaValue)>, arch: Seq<char>, file_stem: Seq<char>) -> (
    Seq<char>,
    usize,
    Option<u32>,
    Option<u32>,
    Option<Seq<char>>,
) {
    (
        match meta_str(md, "general.name"@) {
            Some(n) => n,
            None => file_stem,
        },
        match meta_u32(md, context_key(arch)) {
            Some(v) => v as usize,
            None => 4096,
        },
        meta_u32(md, "tokenizer.ggml.bos_token_id"@),
        meta_u32(md, "tokenizer.ggml.eos_token_id"@),
        meta_str(md, "tokenizer.chat_template"@),
    )
}

/// Read the engine's metadata from a GGUF header: the architecture is
/// required; the context length defaults to 4096 and the name to the
/// file stem.
pub fn read_metadata(md: &[(String, MetaValue)], file_stem: String) -> (r: Result<ModelMetadata, Error>)
    ensures
        match r {
            Ok(m) => {
                &&& meta_str(md@, "general.architecture"@) == Some(m.architecture@)
                &&& metadata_of(md@, m.architecture@, file_stem@) == (
                    m.name@,
                    m.context_length,
                    m.bos_token_id,
                    m.eos_token_id,
                    match m.chat_template {
                        Some(t) => Some(t@),
                        None => None::<Seq<char>>,
                    },
                )
            },
            Err(e) => {
                &&& meta_str(md@, "general.architecture"@) is None
                &&& e matches Error::Config(msg) && msg@ == "gguf: missing general.architecture"@
            },
        },
{
    let architecture = match lookup_str(md, "general.architecture") {
        Some(a) => a,
        None => {
            return Err(Error::Config(String::from_str("gguf: missing general.architecture")));
        },
    };
    let mut key: Vec<char> = Vec::new();
    push_str(&mut key, architecture.as_str());
    push_str(&mut key, ".context_length");
    let context_length = match lookup_u32(md, key.as_slice()) {
        Some(v) => v as usize,
        None => 4096,
    };
    let name = match lookup_str(md, "general.name") {
        Some(n) => n,
        None => file_stem,
    };
    let bos_token_id = match lookup_u32(md, chars_of("tokenizer.ggml.bos_token_id").as_slice()) {
        Some(v) => Some(v),
        None => None,
    };
    let eos_token_id = match lookup_u32(md, chars_of("tokenizer.ggml.eos_token_id").as_slice()) {
        Some(v) => Some(v),
        None => None,
    };
    let chat_template = lookup_str(md, "tokenizer.chat_template");
    Ok(ModelMetadata { architecture, name, context_length, bos_token_id, eos_token_id, chat_template })
}

/// Whether the batched runtime runs a GGUF architecture: qwen2 always,
/// llama unless it is a mixture of experts; anything else goes to the
/// sequential fallback.
pub open spec fn spec_arch_supported(md: Seq<(String, MetaValue)>) -> bool {
    let arch = match meta_str(md, "general.architecture"@) {
        Some(a) => a,
        None => Seq::empty(),
    };
    if arch == "qwen2"@ {
        true
    } else if arch == "llama"@ {
        match meta_u32(md, "llama.expert_count"@) {
            Some(n) => n <= 1,
            None => true,
        }
    } else {
        false
    }
}

/// Whether the batched runtime can run the model this header describes.
pub fn arch_supported(md: &[(String, MetaValue)]) -> (b: bool)
    ensures
        b == spec_arch_supported(md@),
{
    let arch = match lookup_str(md, "general.architecture") {
        Some(a) => chars_of(a.as_str()),
        None => Vec::new(),
    };
    let qwen2 = chars_of("qwen2");
    let llama = chars_of("llama");
    if same_text(arch.as_slice(), qwen2.as_slice()) {
        true
    } else if same_text(arch.as_slice(), llama.as_slice()) {
        match lookup_u32(md, chars_of("llama.expert_count").as_slice()) {
            Some(n) => n <= 1,
            None => true,
        }
    } else {
        false
    }
}

/// How rotary embeddings pair up dimensions.
#[derive(Debug, Clone, Copy, PartialEq, Eq, Structural)]
pub enum RopeStyle {
    /// llama convention: adjacent pairs.
    Interleaved,
    /// NEOX / qwen2 convention: split halves.
    Neox,
}

/// The integer hyperparameters of a transformer, read from its GGUF header.
#[derive(Debug, Clone)]
pub struct ModelShape {
    pub architecture: String,
    pub n_layers: usize,
    pub n_head: usize,
    pub n_kv_head: usize,
    pub head_dim: usize,
    pub embedding_length: usize,
    pub context_length: usize,
    pub rope_dim: usize,
    pub qkv_bias: bool,
    pub rope_style: RopeStyle,
}

/// Abstract [`ModelShape`].
pub struct ShapeView {
    pub architecture: Seq<char>,
    pub n_layers: usize,
    pub n_head: usize,
    pub n_kv_head: usize,
    pub head_dim: usize,
    pub embedding_length: usize,
    pub context_length: usize,
    pub rope_dim: usize,
    pub qkv_bias: bool,
    pub rope_style: RopeStyle,
}

impl ModelShape {
    pub open spec fn shape_view(self) -> ShapeView {
        ShapeView {
            architecture: self.architecture@,
            n_layers: self.n_layers,
            n_head: self.n_head,
            n_kv_head: self.n_kv_head,
            head_dim: self.head_dim,
            embedding_length: self.embedding_length,
            context_length: self.context_length,
            rope_dim: self.rope_dim,
            qkv_bias: self.qkv_bias,
            rope_style: self.rope_style,
        }
    }
}

/// The key `{arch}.{k}` of an architecture hyperparameter.
pub open spec fn hp_key(arch: Seq<char>, k: Seq<char>) -> Seq<char> {
    arch + "."@ + k
}

/// Message for a missing hyperparameter.
pub open spec fn missing_hp_message(arch: Seq<char>, k: Seq<char>) -> Seq<char> {
    "gguf: missing "@ + hp_key(arch, k)
}

/// Message for an architecture the batched runtime does not run.
pub open spec fn unsupported_arch_message(arch: Seq<char>) -> Seq<char> {
    "architecture `"@ + arch + "` is not supported by the batched runtime"@
}

/// The head count the header declares, if it declares an architecture.
pub open spec fn declared_head_count(md: Seq<(String, MetaValue)>) -> Option<u32> {
    match meta_str(md, "general.architecture"@) {
        Some(a) => meta_u32(md, hp_key(a, "attention.head_count"@)),
        None => None,
    }
}

/// What [`model_shape`] reads from a header: the first missing required
/// key or an unsupported architecture as a message, else the shape.
pub open spec fn spec_model_shape(md: Seq<(String, MetaValue)>) -> Result<ShapeView, Seq<char>> {
    match meta_str(md, "general.architecture"@) {
        None => Err("gguf: missing general.architecture"@),
        Some(arch) => match meta_u32(md, hp_key(arch, "attention.head_count"@)) {
            None => Err(missing_hp_message(arch, "attention.head_count"@)),
            Some(n_head) => match meta_u32(md, hp_key(arch, "attention.head_count_kv"@)) {
                None => Err(missing_hp_message(arch, "attention.head_count_kv"@)),
                Some(n_kv_head) => match meta_u32(md, hp_key(arch, "block_count"@)) {
                    None => Err(missing_hp_message(arch, "block_count"@)),
                    Some(n_layers) => match meta_u32(md, hp_key(arch, "embedding_length"@)) {
                        None => Err(missing_hp_message(arch, "embedding_length"@)),
                        Some(emb) => {
                            let context_length: usize = match meta_u32(md, hp_key(arch, "context_length"@)) {
                                Some(c) => c as usize,
                                None => 4096,
                            };
                            let head_dim = (emb / n_head) as usize;
                            if arch == "qwen2"@ || arch == "llama"@ {
                                Ok(ShapeView {
                                    architecture: arch,
                                    n_layers: n_layers as usize,
                                    n_head: n_head as usize,
                                    n_kv_head: n_kv_head as usize,
                                    head_dim,
                                    embedding_length: emb as usize,
                                    context_length,
                                    rope_dim: if arch == "qwen2"@ {
                                        head_dim
                                    } else {
                                        match meta_u32(md, "llama.rope.dimension_count"@) {
                                            Some(d) => d as usize,
                                            None => head_dim,
                                        }
                                    },
                                    qkv_bias: arch == "qwen2"@,
                                    rope_style: if arch == "qwen2"@ {
                                        RopeStyle::Neox
                                    } else {
                                        RopeStyle::Interleaved
                                    },
                                })
                            } else {
                                Err(unsupported_arch_message(arch))
                            }
                        },
                    },
                },
            },
        },
    }
}

/// The batched runtime runs exactly the qwen2 headers and the llama
/// headers that declare at most one expert; a header it runs is one that
/// declares its architecture.
pub proof fn law_supported_architectures(md: Seq<(String, MetaValue)>)
    ensures
        meta_str(md, "general.architecture"@) == Some("qwen2"@) ==> spec_arch_supported(md),
        meta_str(md, "general.architecture"@) == Some("llama"@) ==> (spec_arch_supported(md) <==> !(meta_u32(
            md,
            "llama.expert_count"@,
        ) matches Some(n) && n > 1)),
        spec_arch_supported(md) ==> (meta_str(md, "general.architecture"@) == Some("qwen2"@) || meta_str(
            md,
            "general.architecture"@,
        ) == Some("llama"@)),
{
    reveal_strlit("llama");
    reveal_strlit("qwen2");
    assert("llama"@ != "qwen2"@) by {
        assert("llama"@[0] != "qwen2"@[0]);
    }
    assert(Seq::<char>::empty().len() != "qwen2"@.len() && Seq::<char>::empty().len() != "llama"@.len());
}

/// The metadata read for an architecture holds the header's values: the
/// declared name (the file stem when none), the declared
/// `{arch}.context_length` (4096 when none), the BOS and EOS ids and the
/// chat template as declared.
pub proof fn law_metadata_is_the_header(md: Seq<(String, MetaValue)>, arch: Seq<char>, file_stem: Seq<char>)
    ensures
        ({
            let (name, ctx, bos, eos, tpl) = metadata_of(md, arch, file_stem);
            &&& (meta_str(md, "general.name"@) matches Some(n) ==> name == n)
            &&& (meta_str(md, "general.name"@) is None ==> name == file_stem)
            &&& (meta_u32(md, arch + ".context_length"@) matches Some(c) ==> ctx == c)
            &&& (meta_u32(md, arch + ".context_length"@) is None ==> ctx == 4096)
            &&& bos == meta_u32(md, "tokenizer.ggml.bos_token_id"@)
            &&& eos == meta_u32(md, "tokenizer.ggml.eos_token_id"@)
            &&& tpl == meta_str(md, "tokenizer.chat_template"@)
        }),
{
}

/// A header yields a shape exactly when it declares an architecture the
/// batched runtime runs (qwen2 or llama) together with its head counts,
/// block count and embedding length. The shape then holds the header's
/// values: those four, the declared context length (4096 when the header
/// declares none), the head dimension as the embedding length over the
/// head count, and llama's declared rotary dimension (the head dimension
/// when it declares none, and always for qwen2); qwen2 alone has QKV bias
/// and split-half rotary pairs.
pub proof fn law_shape_is_the_header(md: Seq<(String, MetaValue)>)
    ensures
        spec_model_shape(md) is Ok <==> (meta_str(md, "general.architecture"@) matches Some(arch) && (arch
            == "qwen2"@ || arch == "llama"@) && meta_u32(md, hp_key(arch, "attention.head_count"@)) is Some
            && meta_u32(md, hp_key(arch, "attention.head_count_kv"@)) is Some && meta_u32(
            md,
            hp_key(arch, "block_count"@),
        ) is Some && meta_u32(md, hp_key(arch, "embedding_length"@)) is Some),
        spec_model_shape(md) matches Ok(v) ==> {
            let arch = v.architecture;
            &&& meta_str(md, "general.architecture"@) == Some(arch)
            &&& meta_u32(md, hp_key(arch, "attention.head_count"@)) matches Some(h) && v.n_head == h
            &&& meta_u32(md, hp_key(arch, "attention.head_count_kv"@)) matches Some(h) && v.n_kv_head == h
            &&& meta_u32(md, hp_key(arch, "block_count"@)) matches Some(b) && v.n_layers == b
            &&& meta_u32(md, hp_key(arch, "embedding_length"@)) matches Some(e) && v.embedding_length == e
            &&& v.head_dim * v.n_head <= v.embedding_length
            &&& v.n_head > 0 ==> v.embedding_length < (v.head_dim + 1) * v.n_head
            &&& match meta_u32(md, hp_key(arch, "context_length"@)) {
                Some(c) => v.context_length == c,
                None => v.context_length == 4096,
            }
            &&& (arch == "llama"@ ==> match meta_u32(md, "llama.rope.dimension_count"@) {
                Some(d) => v.rope_dim == d,
                None => v.rope_dim == v.head_dim,
            })
            &&& (arch == "qwen2"@ ==> v.rope_dim == v.head_dim)
            &&& v.qkv_bias == (arch == "qwen2"@)
            &&& (v.rope_style == RopeStyle::Neox) == (arch == "qwen2"@)
        },
{
    reveal_strlit("llama");
    reveal_strlit("qwen2");
    assert("llama"@ != "qwen2"@) by {
        assert("llama"@[0] != "qwen2"@[0]);
    }
    if let Some(arch) = meta_str(md, "general.architecture"@) {
        if let Some(h) = meta_u32(md, hp_key(arch, "attention.head_count"@)) {
            if let Some(e) = meta_u32(md, hp_key(arch, "embedding_length"@)) {
                let q = (e / h) as usize;
                if h > 0 {
                    assert(q * h <= e && e < (q + 1) * h) by (nonlinear_arith)
                        requires
                            h > 0,
                            q == e / h,
                    ;
                } else {
                    assert(q * h == 0) by (nonlinear_arith)
                        requires
                            h == 0,
                    ;
                }
            }
        }
    }
}

fn hp_lookup(md: &[(String, MetaValue)], arch: &str, k: &str) -> (r: Result<u32, Error>)
    ensures
        match r {
            Ok(v) => meta_u32(md@, hp_key(arch@, k@)) == Some(v),
            Err(e) => meta_u32(md@, hp_key(arch@, k@)) is None && (e matches Error::Config(m) && m@
                == missing_hp_message(arch@, k@)),
        },
{
    let mut key: Vec<char> = Vec::new();
    push_str(&mut key, arch);
    push_str(&mut key, ".");
    push_str(&mut key, k);
    assert(key@ =~= hp_key(arch@, k@));
    match lookup_u32(md, key.as_slice()) {
        Some(v) => Ok(v),
        None => {
            let mut m: Vec<char> = Vec::new();
            push_str(&mut m, "gguf: missing ");
            push_all(&mut m, key.as_slice());
            assert(m@ =~= missing_hp_message(arch@, k@));
            Err(Error::Config(string_from_chars(m.as_slice())))
        },
    }
}

/// Read the integer hyperparameters of a qwen2 or llama model: the head
/// counts, block count and embedding length are required, the context
/// length defaults to 4096, and llama's rotary dimension to the head
/// dimension.
pub fn model_shape(md: &[(String, MetaValue)]) -> (r: Result<ModelShape, Error>)
    requires
        declared_head_count(md@) != Some(0u32),
    ensures
        match r {
            Ok(s) => spec_model_shape(md@) == Ok::<ShapeView, Seq<char>>(s.shape_view()),
            Err(e) => e matches Error::Config(m) && spec_model_shape(md@) == Err::<ShapeView, Seq<char>>(
                m@,
            ),
        },
{
    let arch = match lookup_str(md, "general.architecture") {
        Some(a) => a,
        None => {
            return Err(Error::Config(String::from_str("gguf: missing general.architecture")));
        },
    };
    let n_head = match hp_lookup(md, arch.as_str(), "attention.head_count") {
        Ok(v) => v,
        Err(e) => return Err(e),
    };
    let n_kv_head = match hp_lookup(md, arch.as_str(), "attention.head_count_kv") {
        Ok(v) => v,
        Err(e) => return Err(e),
    };
    let n_layers = match hp_lookup(md, arch.as_str(), "block_count") {
        Ok(v) => v,
        Err(e) => return Err(e),
    };
    let emb = match hp_lookup(md, arch.as_str(), "embedding_length") {
        Ok(v) => v,
        Err(e) => return Err(e),
    };
    let context_length: usize = match hp_lookup(md, arch.as_str(), "context_length") {
        Ok(v) => v as usize,
        Err(_) => 4096,
    };
    let head_dim = (emb / n_head) as usize;
    let a = chars_of(arch.as_str());
    let qwen2 = same_text(a.as_slice(), chars_of("qwen2").as_slice());
    let llama = same_text(a.as_slice(), chars_of("llama").as_slice());
    if !qwen2 && !llama {
        let mut m: Vec<char> = Vec::new();
        push_str(&mut m, "architecture `");
        push_all(&mut m, a.as_slice());
        push_str(&mut m, "` is not supported by the batched runtime");
        assert(m@ =~= unsupported_arch_message(arch@));
        return Err(Error::Config(string_from_chars(m.as_slice())));
    }
    let rope_dim = if qwen2 {
        head_dim
    } else {
        match lookup_u32(md, chars_of("llama.rope.dimension_count").as_slice()) {
            Some(d) => d as usize,
            None => head_dim,
        }
    };
    let rope_style = if qwen2 { RopeStyle::Neox } else { RopeStyle::Interleaved };
    Ok(ModelShape {
        architecture: arch,
        n_layers: n_layers as usize,
        n_head: n_head as usize,
        n_kv_head: n_kv_head as usize,
        head_dim,
        embedding_length: emb as usize,
        context_length,
        rope_dim,
        qkv_bias: qwen2,
        rope_style,
    })
}

/// The mTLS flags of the command line: all three paths, or none.
pub fn resolve_tls(ca: Option<String>, cert: Option<String>, key: Option<String>, domain: String) -> (r: Result<
    Option<TlsPaths>,
    Error,
>)
    ensures
        ca is None && cert is None && key is None ==> r matches Ok(None),
        ca is Some && cert is Some && key is Some ==> (r matches Ok(Some(t)) && Some(t.ca) == ca && Some(t.cert)
            == cert && Some(t.key) == key && t.domain == domain),
        !(ca is None && cert is None && key is None) && !(ca is Some && cert is Some && key is Some) ==> (r matches Err(
            Error::Config(m),
        ) && m@ == "--tls-ca, --tls-cert and --tls-key must be given together"@),
{
    match (ca, cert, key) {
        (None, None, None) => Ok(None),
        (Some(ca), Some(cert), Some(key)) => Ok(Some(TlsPaths { ca, cert, key, domain })),
        _ => Err(Error::Config(String::from_str("--tls-ca, --tls-cert and --tls-key must be given together"))),
    }
}

/// Which model runtime the engine serves with.
#[derive(Debug, Clone, Copy, PartialEq, Eq, Structural)]
pub enum Runtime {
    /// Middle layers on remote workers, one sequence at a time.
    Pipelined,
    /// The batched runtime for the architectures it covers.
    Batched,
    /// The sequential fallback.
    Sequential,
}

/// A configured pipeline wins; otherwise the batched runtime when it
/// covers the architecture, else the sequential fallback.
pub fn choose_runtime(cfg: &EngineConfig, batched_supported: bool) -> (r: Runtime)
    ensures
        r == if cfg.pipeline is Some {
            Runtime::Pipelined
        } else if batched_supported {
            Runtime::Batched
        } else {
            Runtime::Sequential
        },
{
    if cfg.pipeline.is_some() {
        Runtime::Pipelined
    } else if batched_supported {
        Runtime::Batched
    } else {
        Runtime::Sequential
    }
}

/// The model id `/v1/models` reports: the configured one, else the
/// GGUF's name.
pub fn served_model_id(cfg: &EngineConfig, metadata: &ModelMetadata) -> (id: String)
    ensures
        id@ == match cfg.model_id {
            Some(m) => m@,
            None => metadata.name@,
        },
{
    match &cfg.model_id {
        Some(m) => m.clone(),
        None => metadata.name.clone(),
    }
}

/// Role of a serving process.
#[derive(Debug, Clone, Copy, PartialEq, Eq, Structural)]
pub enum Role {
    /// Runs the whole model.
    Standalone,
    /// Runs the first layers and drives remote workers.
    Coordinator,
}

/// What [`pipeline_config`] yields for the pipeline flags: the message of
/// the first problem, or the coordinator's layer range (none when
/// standalone).
pub open spec fn spec_pipeline_flags(
    role: Role,
    layers: Option<Seq<char>>,
    n_workers: nat,
    tls_ok: bool,
) -> Result<Option<(usize, usize)>, Seq<char>> {
    match role {
        Role::Standalone => if n_workers > 0 || layers is Some {
            Err("--workers/--layers require --role coordinator"@)
        } else {
            Ok(None)
        },
        Role::Coordinator => match layers {
            None => Err("--role coordinator requires --layers A:B"@),
            Some(l) => if n_workers == 0 {
                Err("--role coordinator requires at least one --workers endpoint"@)
            } else {
                match spec_parse_range(l) {
                    Err(m) => Err(m),
                    Ok(r) => if tls_ok {
                        Ok(Some(r))
                    } else {
                        Err("--tls-ca, --tls-cert and --tls-key must be given together"@)
                    },
                }
            },
        },
    }
}

/// The pipeline configuration the `serve` flags describe: none for a
/// standalone server (which takes no pipeline flags); for a coordinator,
/// its layer range, at least one worker, and the mTLS material.
pub fn pipeline_config(
    role: Role,
    layers: Option<String>,
    workers: Vec<String>,
    encoding: Encoding,
    tls_ca: Option<String>,
    tls_cert: Option<String>,
    tls_key: Option<String>,
    tls_domain: String,
) -> (r: Result<Option<CoordinatorConfig>, Error>)
    ensures
        ({
            let tls_ok = (tls_ca is None && tls_cert is None && tls_key is None) || (tls_ca is Some
                && tls_cert is Some && tls_key is Some);
            let want = spec_pipeline_flags(
                role,
                match layers {
                    Some(l) => Some(l@),
                    None => None,
                },
                workers@.len(),
                tls_ok,
            );
            match r {
                Ok(None) => want == Ok::<Option<(usize, usize)>, Seq<char>>(None),
                Ok(Some(c)) => want == Ok::<Option<(usize, usize)>, Seq<char>>(Some((c.layers.start, c.layers.end)))
                    && c.workers@ == workers@ && c.encoding == encoding && (c.tls is Some <==> tls_ca is Some)
                    && (c.tls matches Some(t) ==> (Some(t.ca) == tls_ca && Some(t.cert) == tls_cert && Some(t.key)
                    == tls_key && t.domain == tls_domain)),
                Err(Error::Config(m)) => want == Err::<Option<(usize, usize)>, Seq<char>>(m@),
                Err(Error::InvalidArgument(m)) => want == Err::<Option<(usize, usize)>, Seq<char>>(m@),
                Err(_) => false,
            }
        }),
{
    match role {
        Role::Standalone => {
            if workers.len() > 0 || layers.is_some() {
                return Err(Error::Config(String::from_str("--workers/--layers require --role coordinator")));
            }
            Ok(None)
        },
        Role::Coordinator => {
            let l = match layers {
                Some(l) => l,
                None => {
                    return Err(Error::Config(String::from_str("--role coordinator requires --layers A:B")));
                },
            };
            if workers.len() == 0 {
                return Err(
                    Error::Config(String::from_str("--role coordinator requires at least one --workers endpoint")),
                );
            }
            let range = match LayerRange::parse(l.as_str()) {
                Ok(r) => r,
                Err(e) => {
                    return Err(e);
                },
            };
            let tls = match resolve_tls(tls_ca, tls_cert, tls_key, tls_domain) {
                Ok(t) => t,
                Err(e) => {
                    return Err(e);
                },
            };
            Ok(Some(CoordinatorConfig { layers: range, workers, encoding, tls }))
        },
    }
}

} // verus!
