//! Decisions of the engine supervisor: which engine configuration is in
//! effect, which model the spawned engine serves, and how long to keep
//! polling an engine that is not ready yet.
use vstd::prelude::*;

use crate::error::Error;
use crate::spawn::{render_argv, should_spawn, spec_render_argv, spec_should_spawn, views, EngineConfig, ModelSpec, NodeRoleCfg};
use crate::text::str_eq;

verus! {

/// The effective engine URL: a non-empty legacy `[agent].vllm_url`
/// replaces an `[engine].url` still at its default.
pub open spec fn spec_effective_url(url: Seq<char>, default_url: Seq<char>, legacy_url: Option<Seq<char>>) -> Seq<
    char,
> {
    match legacy_url {
        Some(u) => if u.len() > 0 && url == default_url {
            u
        } else {
            url
        },
        None => url,
    }
}

/// Resolve the effective `[engine]` configuration: the explicit block,
/// with a legacy `[agent].vllm_url` honoured while `[engine].url` is left
/// at its default `default_url`.
pub fn resolve_engine_config(engine: EngineConfig, default_url: &str, legacy_url: Option<&str>) -> (c:
    EngineConfig)
    ensures
        c.url@ == spec_effective_url(
            engine.url@,
            default_url@,
            match legacy_url {
                Some(u) => Some(u@),
                None => None,
            },
        ),
        c == (EngineConfig { url: c.url, ..engine }),
{
    let mut effective = engine;
    if let Some(u) = legacy_url {
        if !u.is_empty() && str_eq(effective.url.as_str(), default_url) {
            effective.url = u.to_string();
        }
    }
    effective
}

/// One `[models.*]` entry of the agent configuration.
#[derive(Debug, Clone)]
pub struct ModelConfig {
    pub tp: u32,
    pub max_model_len: Option<u32>,
    pub extra_args: Vec<String>,
    pub path: Option<String>,
}

/// `s` is the spec of the engine serving model `m` (name and settings).
pub open spec fn spec_of_model(s: ModelSpec, m: (String, ModelConfig)) -> bool {
    &&& s.name@ == m.0@
    &&& s.tp == m.1.tp
    &&& s.max_model_len == m.1.max_model_len
    &&& views(s.extra_args@) == views(m.1.extra_args@)
    &&& match (s.path, m.1.path) {
        (Some(a), Some(b)) => a@ == b@,
        (None, None) => true,
        _ => false,
    }
}

/// The model a spawned engine serves: the first declared model, if any.
pub fn default_model_spec(models: &[(String, ModelConfig)]) -> (r: Option<ModelSpec>)
    ensures
        models@.len() == 0 ==> r is None,
        models@.len() > 0 ==> (r matches Some(s) && spec_of_model(s, models@[0])),
{
    if models.len() == 0 {
        return None;
    }
    let (name, m) = &models[0];
    let mut extra: Vec<String> = Vec::new();
    let mut i: usize = 0;
    while i < m.extra_args.len()
        invariant
            i <= m.extra_args@.len(),
            extra@.map_values(|a: String| a@) == m.extra_args@.take(i as int).map_values(|a: String| a@),
        decreases m.extra_args@.len() - i,
    {
        let a = m.extra_args[i].clone();
        let ghost before = extra@;
        extra.push(a);
        assert(extra@.map_values(|a: String| a@) =~= before.map_values(|a: String| a@).push(
            m.extra_args@[i as int]@,
        ));
        assert(m.extra_args@.take(i + 1).map_values(|a: String| a@) =~= m.extra_args@.take(
            i as int,
        ).map_values(|a: String| a@).push(m.extra_args@[i as int]@));
        i = i + 1;
        assert(extra@.map_values(|a: String| a@) =~= m.extra_args@.take(i as int).map_values(
            |a: String| a@,
        ));
    }
    assert(m.extra_args@.take(m.extra_args@.len() as int) =~= m.extra_args@);
    let path = match &m.path {
        Some(p) => Some(p.clone()),
        None => None,
    };
    Some(ModelSpec { name: name.clone(), tp: m.tp, max_model_len: m.max_model_len, extra_args: extra, path })
}

/// The command line the supervisor spawns the engine with: nothing for
/// an externally managed engine or when no model is declared; otherwise
/// the engine command line for the first declared model.
pub fn spawn_plan(
    cfg: &EngineConfig,
    models: &[(String, ModelConfig)],
    role: NodeRoleCfg,
    legacy_cmd: Option<&[String]>,
) -> (r: Result<Option<Vec<String>>, Error>)
    ensures
        !spec_should_spawn(cfg.kind) || models@.len() == 0 ==> r matches Ok(None),
        spec_should_spawn(cfg.kind) && models@.len() > 0 ==> exists|s: ModelSpec|
            #![trigger spec_of_model(s, models@[0])]
            spec_of_model(s, models@[0]) && match r {
                Ok(Some(v)) => spec_render_argv(
                    *cfg,
                    s,
                    role,
                    match legacy_cmd {
                        Some(l) => Some(views(l@)),
                        None => None,
                    },
                ) == Ok::<Seq<Seq<char>>, Seq<char>>(views(v@)),
                Err(Error::Config(m)) => spec_render_argv(
                    *cfg,
                    s,
                    role,
                    match legacy_cmd {
                        Some(l) => Some(views(l@)),
                        None => None,
                    },
                ) == Err::<Seq<Seq<char>>, Seq<char>>(m@),
                _ => false,
            },
{
    if !should_spawn(cfg) {
        return Ok(None);
    }
    let spec = match default_model_spec(models) {
        Some(s) => s,
        None => {
            return Ok(None);
        },
    };
    let ghost sg = spec;
    match render_argv(cfg, &spec, role, legacy_cmd) {
        Ok(v) => {
            assert(spec_of_model(sg, models@[0]));
            Ok(Some(v))
        },
        Err(e) => {
            assert(spec_of_model(sg, models@[0]));
            Err(e)
        },
    }
}

/// First delay between readiness probes, in nanoseconds.
pub const READY_FIRST_DELAY_NS: u64 = 100_000_000;

/// Longest delay between readiness probes, in nanoseconds.
pub const READY_MAX_DELAY_NS: u64 = 2_000_000_000;

/// Next move while waiting for an engine to become ready.
#[derive(Debug)]
pub enum ReadyStep {
    /// The engine answered; stop polling.
    Ready,
    /// The deadline passed without an answer.
    GiveUp(Error),
    /// Sleep `sleep_ns`, then probe again with `next_delay_ns` as the delay.
    Wait { sleep_ns: u64, next_delay_ns: u64 },
}

/// Message when an engine never became ready.
pub open spec fn never_ready_message() -> Seq<char> {
    "engine never became ready"@
}

/// The backoff that follows `delay_ns`: doubled, capped at two seconds.
pub open spec fn spec_next_delay(delay_ns: u64) -> u64 {
    if 2 * delay_ns < READY_MAX_DELAY_NS {
        (2 * delay_ns) as u64
    } else {
        READY_MAX_DELAY_NS
    }
}

/// Decide the next move of the readiness wait from the latest probe,
/// the time elapsed since the wait began, the deadline and the current
/// delay (all in nanoseconds).
pub fn ready_step(ready: bool, elapsed_ns: u128, max_ns: u128, delay_ns: u64) -> (s: ReadyStep)
    requires
        2 * delay_ns <= u64::MAX,
    ensures
        ready ==> s is Ready,
        !ready && elapsed_ns > max_ns ==> (s matches ReadyStep::GiveUp(Error::Unavailable(m)) && m@
            == never_ready_message()),
        !ready && elapsed_ns <= max_ns ==> s == (ReadyStep::Wait {
            sleep_ns: delay_ns,
            next_delay_ns: spec_next_delay(delay_ns),
        }),
{
    if ready {
        return ReadyStep::Ready;
    }
    if elapsed_ns > max_ns {
        return ReadyStep::GiveUp(Error::Unavailable(String::from_str("engine never became ready")));
    }
    let doubled = delay_ns * 2;
    let next = if doubled < READY_MAX_DELAY_NS { doubled } else { READY_MAX_DELAY_NS };
    ReadyStep::Wait { sleep_ns: delay_ns, next_delay_ns: next }
}

/// Starting from the first delay, every delay stays within
/// `[READY_FIRST_DELAY_NS, READY_MAX_DELAY_NS]` and never shrinks.
pub proof fn law_backoff_is_bounded_and_monotone(delay_ns: u64)
    requires
        READY_FIRST_DELAY_NS <= delay_ns <= READY_MAX_DELAY_NS,
    ensures
        READY_FIRST_DELAY_NS <= spec_next_delay(delay_ns) <= READY_MAX_DELAY_NS,
        delay_ns <= spec_next_delay(delay_ns),
{
}

} // verus!
