//! Choices of the operator command line: where `install` deploys, which
//! engine it configures, and what `bench` measures.
use vstd::prelude::*;

use crate::error::Error;
use crate::order::{insert_sorted, lemma_sorted_of, sorted_of, strictly_sorted, string_views};
use crate::text::{chars_of, push_str, string_from_chars};

verus! {

/// Deployment target of `install`.
#[derive(Debug, Clone, Copy, PartialEq, Eq, Structural)]
pub enum Target {
    SingleNode,
    Kubernetes,
    Aws,
    Gcp,
    Azure,
    Hetzner,
    Baremetal,
}

/// Engine that `install` configures.
#[derive(Debug, Clone, Copy, PartialEq, Eq, Structural)]
pub enum Engine {
    Vllm,
    Sglang,
    LlamaCpp,
    OpenaiCompat,
}

/// The engine's name in the agent's TOML configuration.
pub open spec fn engine_toml(e: Engine) -> &'static str {
    match e {
        Engine::Vllm => "vllm",
        Engine::Sglang => "sglang",
        Engine::LlamaCpp => "llama_cpp",
        Engine::OpenaiCompat => "openai_compat",
    }
}

impl Engine {
    /// The engine's name in the agent's TOML configuration.
    pub fn as_toml(self) -> (s: &'static str)
        ensures
            s == engine_toml(self),
    {
        match self {
            Engine::Vllm => "vllm",
            Engine::Sglang => "sglang",
            Engine::LlamaCpp => "llama_cpp",
            Engine::OpenaiCompat => "openai_compat",
        }
    }
}

/// Targets deployed with a Terraform module.
pub open spec fn is_terraform_target(t: Target) -> bool {
    !(t is SingleNode) && !(t is Kubernetes)
}

/// The in-tree Terraform module of a cloud or bare-metal target.
pub open spec fn spec_terraform_module(t: Target) -> &'static str {
    match t {
        Target::Aws => "deploy/terraform/aws",
        Target::Gcp => "deploy/terraform/gcp",
        Target::Azure => "deploy/terraform/azure",
        Target::Hetzner => "deploy/terraform/hetzner",
        _ => "deploy/terraform/baremetal",
    }
}

/// The in-tree Terraform module of a cloud or bare-metal target (the
/// single-node and Kubernetes targets have none).
pub fn terraform_module(t: Target) -> (m: &'static str)
    requires
        is_terraform_target(t),
    ensures
        m == spec_terraform_module(t),
{
    match t {
        Target::Aws => "deploy/terraform/aws",
        Target::Gcp => "deploy/terraform/gcp",
        Target::Azure => "deploy/terraform/azure",
        Target::Hetzner => "deploy/terraform/hetzner",
        _ => "deploy/terraform/baremetal",
    }
}

/// What `bench` measures.
#[derive(Debug, Clone, Copy, PartialEq, Eq, Structural)]
pub enum What {
    Chat,
    Embed,
    Health,
}

/// The container runtime the single-node install drives: docker when it
/// is on `PATH`, else podman.
pub fn preflight_runner(has_docker: bool, has_podman: bool) -> (r: Result<String, Error>)
    ensures
        has_docker ==> (r matches Ok(s) && s@ == "docker"@),
        !has_docker && has_podman ==> (r matches Ok(s) && s@ == "podman"@),
        !has_docker && !has_podman ==> (r matches Err(Error::Unavailable(m)) && m@
            == "neither docker nor podman found in PATH"@),
{
    if has_docker {
        return Ok(String::from_str("docker"));
    }
    if has_podman {
        return Ok(String::from_str("podman"));
    }
    Err(Error::Unavailable(String::from_str("neither docker nor podman found in PATH")))
}

/// Why a Terraform install cannot proceed: the module is missing from
/// the checkout, or `terraform` is not on `PATH`.
pub fn terraform_preflight(t: Target, module_exists: bool, has_terraform: bool) -> (r: Result<
    &'static str,
    Error,
>)
    requires
        is_terraform_target(t),
    ensures
        module_exists && has_terraform ==> r == Ok::<&'static str, Error>(spec_terraform_module(t)),
        !module_exists ==> (r matches Err(Error::NotFound(m)) && m@ == "terraform module not found: "@
            + spec_terraform_module(t)@),
        module_exists && !has_terraform ==> (r matches Err(Error::Unavailable(m)) && m@
            == "terraform not in PATH; install hashicorp terraform first"@),
{
    let module = terraform_module(t);
    if !module_exists {
        let mut v: Vec<char> = Vec::new();
        push_str(&mut v, "terraform module not found: ");
        push_str(&mut v, module);
        return Err(Error::NotFound(string_from_chars(v.as_slice())));
    }
    if !has_terraform {
        return Err(Error::Unavailable(String::from_str("terraform not in PATH; install hashicorp terraform first")));
    }
    Ok(module)
}

/// Requests each of `concurrency` bench workers sends: an equal share,
/// at least one.
pub fn per_worker(requests: u32, concurrency: u32) -> (n: u32)
    requires
        concurrency > 0,
    ensures
        n == if requests / concurrency > 1 { requests / concurrency } else { 1 },
{
    let share = requests / concurrency;
    if share > 1 { share } else { 1 }
}

/// Outcome counters of a chat bench. Each counter wraps around on
/// overflow.
#[derive(Debug, Clone, Copy)]
pub struct BenchTally {
    pub ok: u32,
    pub err: u32,
    pub total_ms: u64,
}

impl BenchTally {
    pub fn new() -> (t: Self)
        ensures
            t.ok == 0 && t.err == 0 && t.total_ms == 0,
    {
        BenchTally { ok: 0, err: 0, total_ms: 0 }
    }

    /// A successful request that took `ms` milliseconds.
    pub fn record_ok(&mut self, ms: u64)
        ensures
            final(self).ok == old(self).ok.wrapping_add(1),
            final(self).err == old(self).err,
            final(self).total_ms == old(self).total_ms.wrapping_add(ms),
    {
        self.ok = self.ok.wrapping_add(1);
        self.total_ms = self.total_ms.wrapping_add(ms);
    }

    /// A failed request (transport error or non-2xx status).
    pub fn record_err(&mut self)
        ensures
            final(self).ok == old(self).ok,
            final(self).err == old(self).err.wrapping_add(1),
            final(self).total_ms == old(self).total_ms,
    {
        self.err = self.err.wrapping_add(1);
    }

    /// Mean latency of the successful requests, 0 when there were none.
    pub fn average_ms(&self) -> (a: u64)
        ensures
            a == if self.ok > 0 { self.total_ms / (self.ok as u64) } else { 0 },
    {
        if self.ok > 0 {
            self.total_ms / (self.ok as u64)
        } else {
            0
        }
    }
}

/// The etcd endpoints of the configuration the CLI loaded from
/// `config_path`; the CLI cannot work without one.
pub fn require_endpoints(endpoints: Vec<String>, config_path: &str) -> (r: Result<Vec<String>, Error>)
    ensures
        endpoints@.len() > 0 ==> r == Ok::<Vec<String>, Error>(endpoints),
        endpoints@.len() == 0 ==> (r matches Err(Error::Config(m)) && m@ == "no [cluster].etcd_endpoints in "@
            + config_path@ + "; the CLI needs at least one reachable etcd node for cluster/model commands"@),
{
    if endpoints.len() > 0 {
        return Ok(endpoints);
    }
    let mut v: Vec<char> = Vec::new();
    push_str(&mut v, "no [cluster].etcd_endpoints in ");
    push_str(&mut v, config_path);
    push_str(&mut v, "; the CLI needs at least one reachable etcd node for cluster/model commands");
    Err(Error::Config(string_from_chars(v.as_slice())))
}

/// `cgn-ctl recipe` subcommands; `root` overrides the recipes root.
#[derive(Debug, Clone)]
pub enum Cmd {
    /// List the recipes.
    Ls { root: Option<String> },
    /// Print a recipe's README and files.
    Show { name: String, root: Option<String> },
    /// Bring a recipe's cluster up.
    Up { name: String, root: Option<String> },
    /// Tear a recipe's cluster down.
    Down { name: String, root: Option<String> },
}

/// The recipes root: `--root` when given (it must be a directory), else
/// `$CGN_RECIPES_DIR` when that is a directory, else the `recipes/` found
/// walking up from the working directory and the binary.
pub fn resolve_recipes_root(
    arg: Option<String>,
    arg_is_dir: bool,
    env: Option<String>,
    env_is_dir: bool,
    walked: Option<String>,
) -> (r: Result<String, Error>)
    ensures
        match arg {
            Some(p) => if arg_is_dir {
                r == Ok::<String, Error>(p)
            } else {
                r matches Err(Error::Config(m)) && m@ == "--root "@ + p@ + " is not a directory"@
            },
            None => match env {
                Some(e) if env_is_dir => r == Ok::<String, Error>(e),
                _ => match walked {
                    Some(w) => r == Ok::<String, Error>(w),
                    None => r matches Err(Error::Config(m)) && m@
                        == "could not locate the recipes/ directory; pass --root or set CGN_RECIPES_DIR"@,
                },
            },
        },
{
    if let Some(p) = arg {
        if !arg_is_dir {
            let mut v: Vec<char> = Vec::new();
            push_str(&mut v, "--root ");
            push_str(&mut v, p.as_str());
            push_str(&mut v, " is not a directory");
            return Err(Error::Config(string_from_chars(v.as_slice())));
        }
        return Ok(p);
    }
    if let Some(e) = env {
        if env_is_dir {
            return Ok(e);
        }
    }
    match walked {
        Some(w) => Ok(w),
        None => Err(
            Error::Config(
                String::from_str("could not locate the recipes/ directory; pass --root or set CGN_RECIPES_DIR"),
            ),
        ),
    }
}

/// A recipe is a directory holding an `up.sh`.
pub fn check_recipe_dir(name: &str, root: &str, dir: &str, is_dir: bool, has_up_sh: bool) -> (r: Result<(), Error>)
    ensures
        !is_dir ==> (r matches Err(Error::Config(m)) && m@ == "no recipe `"@ + name@ + "` (looked under "@ + root@
            + ")"@),
        is_dir && !has_up_sh ==> (r matches Err(Error::Config(m)) && m@ == dir@
            + " does not look like a recipe (no up.sh)"@),
        is_dir && has_up_sh ==> r is Ok,
{
    if !is_dir {
        let mut v: Vec<char> = Vec::new();
        push_str(&mut v, "no recipe `");
        push_str(&mut v, name);
        push_str(&mut v, "` (looked under ");
        push_str(&mut v, root);
        push_str(&mut v, ")");
        return Err(Error::Config(string_from_chars(v.as_slice())));
    }
    if !has_up_sh {
        let mut v: Vec<char> = Vec::new();
        push_str(&mut v, dir);
        push_str(&mut v, " does not look like a recipe (no up.sh)");
        return Err(Error::Config(string_from_chars(v.as_slice())));
    }
    Ok(())
}

/// Directories whose name starts with `_` or `.` are not searched.
pub fn recipe_entry_visible(name: &str) -> (b: bool)
    ensures
        b == !(name@.len() > 0 && (name@[0] == '_' || name@[0] == '.')),
{
    let c = chars_of(name);
    !(c.len() > 0 && (c[0] == '_' || c[0] == '.'))
}

/// The `recipe ls` output: an empty-root note, or a header and the
/// recipes found (relative paths of distinct directories) in order.
pub fn recipe_listing(found: &[String], root: &str) -> (lines: Vec<String>)
    ensures
        found@.len() == 0 ==> string_views(lines@) == seq!["(no recipes under "@ + root@ + ")"@],
        found@.len() > 0 ==> string_views(lines@) == seq!["recipes (root: "@ + root@ + ")"@] + sorted_of(
            string_views(found@).to_set(),
        ).map_values(|r: Seq<char>| "  "@ + r),
{
    let mut sorted: Vec<String> = Vec::new();
    let mut i: usize = 0;
    assert(string_views(sorted@).to_set() =~= string_views(found@.take(0)).to_set());
    while i < found.len()
        invariant
            i <= found@.len(),
            strictly_sorted(string_views(sorted@)),
            string_views(sorted@).to_set() == string_views(found@.take(i as int)).to_set(),
        decreases found@.len() - i,
    {
        insert_sorted(&mut sorted, found[i].clone());
        assert(string_views(found@.take(i + 1)) =~= string_views(found@.take(i as int)).push(found@[i as int]@));
        proof {
            string_views(found@.take(i as int)).lemma_push_to_set_commute(found@[i as int]@);
        }
        assert(string_views(found@.take(i + 1)).to_set() =~= string_views(found@.take(i as int)).to_set().insert(
            found@[i as int]@,
        ));
        i = i + 1;
    }
    assert(found@.take(found@.len() as int) =~= found@);
    proof {
        lemma_sorted_of(string_views(sorted@), string_views(found@).to_set());
    }
    let mut lines: Vec<String> = Vec::new();
    if found.len() == 0 {
        let mut v: Vec<char> = Vec::new();
        push_str(&mut v, "(no recipes under ");
        push_str(&mut v, root);
        push_str(&mut v, ")");
        lines.push(string_from_chars(v.as_slice()));
        assert(string_views(lines@) =~= seq!["(no recipes under "@ + root@ + ")"@]);
        return lines;
    }
    let mut h: Vec<char> = Vec::new();
    push_str(&mut h, "recipes (root: ");
    push_str(&mut h, root);
    push_str(&mut h, ")");
    lines.push(string_from_chars(h.as_slice()));
    let ghost sv = string_views(sorted@);
    let mut j: usize = 0;
    while j < sorted.len()
        invariant
            j <= sorted@.len(),
            sv == string_views(sorted@),
            string_views(lines@) == seq!["recipes (root: "@ + root@ + ")"@] + sv.take(j as int).map_values(
                |r: Seq<char>| "  "@ + r,
            ),
        decreases sorted@.len() - j,
    {
        let mut l: Vec<char> = Vec::new();
        push_str(&mut l, "  ");
        push_str(&mut l, sorted[j].as_str());
        let ghost before = lines@;
        lines.push(string_from_chars(l.as_slice()));
        assert(sv.take(j + 1).map_values(|r: Seq<char>| "  "@ + r) =~= sv.take(j as int).map_values(
            |r: Seq<char>| "  "@ + r,
        ).push("  "@ + sv[j as int]));
        assert(string_views(lines@) =~= string_views(before).push("  "@ + sv[j as int]));
        j = j + 1;
    }
    assert(sv.take(sv.len() as int) =~= sv);
    lines
}

} // verus!
