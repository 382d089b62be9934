use cognitora::ctl::{check_recipe_dir, recipe_entry_visible, recipe_listing, resolve_recipes_root};
use cognitora::ctl::require_endpoints;
use cognitora::ctl::{per_worker, preflight_runner, terraform_preflight, BenchTally};
use cognitora::error::Error;
use cognitora::ctl::{terraform_module, Engine, Target};

#[test]
fn engines_have_their_toml_names() {
    assert_eq!(Engine::Vllm.as_toml(), "vllm");
    assert_eq!(Engine::Sglang.as_toml(), "sglang");
    assert_eq!(Engine::LlamaCpp.as_toml(), "llama_cpp");
    assert_eq!(Engine::OpenaiCompat.as_toml(), "openai_compat");
}

#[test]
fn cloud_targets_map_to_modules() {
    assert_eq!(terraform_module(Target::Aws), "deploy/terraform/aws");
    assert_eq!(terraform_module(Target::Hetzner), "deploy/terraform/hetzner");
    assert_eq!(terraform_module(Target::Baremetal), "deploy/terraform/baremetal");
}

#[test]
fn container_runtime_prefers_docker() {
    assert_eq!(preflight_runner(true, true).unwrap(), "docker");
    assert_eq!(preflight_runner(false, true).unwrap(), "podman");
    match preflight_runner(false, false) {
        Err(Error::Unavailable(m)) => assert_eq!(m, "neither docker nor podman found in PATH"),
        other => panic!("unexpected {other:?}"),
    }
}

#[test]
fn terraform_needs_the_module_and_the_binary() {
    assert_eq!(terraform_preflight(Target::Gcp, true, true).unwrap(), "deploy/terraform/gcp");
    match terraform_preflight(Target::Azure, false, true) {
        Err(Error::NotFound(m)) => assert_eq!(m, "terraform module not found: deploy/terraform/azure"),
        other => panic!("unexpected {other:?}"),
    }
    match terraform_preflight(Target::Aws, true, false) {
        Err(Error::Unavailable(m)) => {
            assert_eq!(m, "terraform not in PATH; install hashicorp terraform first")
        }
        other => panic!("unexpected {other:?}"),
    }
}

#[test]
fn bench_splits_requests_and_averages_latency() {
    assert_eq!(per_worker(64, 4), 16);
    assert_eq!(per_worker(3, 4), 1);
    assert_eq!(per_worker(0, 1), 1);
    let mut t = BenchTally::new();
    assert_eq!(t.average_ms(), 0);
    t.record_ok(30);
    t.record_ok(50);
    t.record_err();
    assert_eq!((t.ok, t.err, t.total_ms), (2, 1, 80));
    assert_eq!(t.average_ms(), 40);
}

#[test]
fn cli_requires_etcd_endpoints() {
    assert_eq!(require_endpoints(vec!["e:2379".into()], "/etc/c.toml").unwrap(), vec!["e:2379".to_string()]);
    match require_endpoints(vec![], "/etc/cognitora/cognitora.toml") {
        Err(Error::Config(m)) => assert_eq!(
            m,
            "no [cluster].etcd_endpoints in /etc/cognitora/cognitora.toml; the CLI needs at least one reachable etcd node for cluster/model commands"
        ),
        other => panic!("unexpected {other:?}"),
    }
}

#[test]
fn recipes_root_resolution_order() {
    assert_eq!(resolve_recipes_root(Some("/r".into()), true, Some("/e".into()), true, None).unwrap(), "/r");
    match resolve_recipes_root(Some("/r".into()), false, None, false, Some("/w".into())) {
        Err(Error::Config(m)) => assert_eq!(m, "--root /r is not a directory"),
        other => panic!("unexpected {other:?}"),
    }
    assert_eq!(resolve_recipes_root(None, false, Some("/e".into()), true, Some("/w".into())).unwrap(), "/e");
    assert_eq!(resolve_recipes_root(None, false, Some("/e".into()), false, Some("/w".into())).unwrap(), "/w");
    match resolve_recipes_root(None, false, None, false, None) {
        Err(Error::Config(m)) => {
            assert_eq!(m, "could not locate the recipes/ directory; pass --root or set CGN_RECIPES_DIR")
        }
        other => panic!("unexpected {other:?}"),
    }
}

#[test]
fn unknown_recipes_error_clearly() {
    match check_recipe_dir("does-not-exist", "/r", "/r/does-not-exist", false, false) {
        Err(Error::Config(m)) => assert_eq!(m, "no recipe `does-not-exist` (looked under /r)"),
        other => panic!("unexpected {other:?}"),
    }
    match check_recipe_dir("x", "/r", "/r/x", true, false) {
        Err(Error::Config(m)) => assert_eq!(m, "/r/x does not look like a recipe (no up.sh)"),
        other => panic!("unexpected {other:?}"),
    }
    assert!(check_recipe_dir("x", "/r", "/r/x", true, true).is_ok());
}

#[test]
fn recipe_listing_is_sorted() {
    assert!(recipe_entry_visible("llama3-8b"));
    assert!(!recipe_entry_visible("_lib"));
    assert!(!recipe_entry_visible(".git"));
    let found = vec!["qwen3-7b/vllm/agg".to_string(), "llama3-8b/vllm/agg".to_string(), "llama3-8b/sglang/agg".to_string()];
    assert_eq!(
        recipe_listing(&found, "/r"),
        vec![
            "recipes (root: /r)".to_string(),
            "  llama3-8b/sglang/agg".to_string(),
            "  llama3-8b/vllm/agg".to_string(),
            "  qwen3-7b/vllm/agg".to_string(),
        ]
    );
    assert_eq!(recipe_listing(&[], "/r"), vec!["(no recipes under /r)".to_string()]);
}
