//! SLA planner-lite: reactive queue-depth autoscaling for model pools.
//!
//! A pool that declares `slo.maxQueuePerReplica` is sized so that no
//! replica carries more than that many queued requests:
//! `desired = clamp(ceil(total_queue / max_queue_per_replica), min, max)`.
//! A per-pool cooldown keeps heartbeat noise from thrashing replicas.
use vstd::prelude::*;

verus! {

/// Replica floor when the pool sets none.
pub const DEFAULT_MIN_REPLICAS: u32 = 1;

/// Cooldown between two scalings of one pool, when the pool sets none.
pub const DEFAULT_COOLDOWN_SECS: u64 = 120;

/// `ceil(a / b)` for a positive `b`.
pub open spec fn ceil_div(a: int, b: int) -> int {
    (a + b - 1) / b
}

/// The sizing rule: enough replicas that none carries more than
/// `max_queue_per_replica` (0 is read as 1) queued requests, clamped to
/// `[min, max]`; when `min > max`, `min` wins.
pub open spec fn spec_desired_replicas(total_queue: u32, max_queue_per_replica: u32, min: u32, max: u32) -> int {
    let per: int = if max_queue_per_replica == 0 { 1 } else { max_queue_per_replica as int };
    let want = ceil_div(total_queue as int, per);
    let hi: int = if max >= min { max as int } else { min as int };
    if want < min {
        min as int
    } else if want > hi {
        hi
    } else {
        want
    }
}

/// Pure sizing rule: enough replicas that no one carries more than
/// `max_queue_per_replica` queued requests, clamped to `[min, max]`.
pub fn desired_replicas(total_queue: u32, max_queue_per_replica: u32, min: u32, max: u32) -> (d: u32)
    ensures
        d == spec_desired_replicas(total_queue, max_queue_per_replica, min, max),
{
    let per = if max_queue_per_replica == 0 { 1 } else { max_queue_per_replica };
    let q = total_queue / per;
    let r = total_queue % per;
    assert(r != 0 ==> q < u32::MAX) by (nonlinear_arith)
        requires
            per >= 1,
            q == total_queue / per,
            r == total_queue % per,
            total_queue <= u32::MAX,
    ;
    let want = if r != 0 { q + 1 } else { q };
    assert(want == ceil_div(total_queue as int, per as int)) by (nonlinear_arith)
        requires
            per >= 1,
            q == total_queue / per,
            r == total_queue % per,
            want == if r != 0 { q + 1 } else { q as int },
    ;
    let hi = if max >= min { max } else { min };
    if want < min {
        min
    } else if want > hi {
        hi
    } else {
        want
    }
}

/// The part of an agent heartbeat the planner reads.
#[derive(Debug, Clone)]
pub struct Heartbeat {
    pub model: Option<String>,
    pub queue_depth: u32,
    pub ready: bool,
}

/// A pool's queue-depth objective (`maxQueuePerReplica` is set).
#[derive(Debug, Clone, Copy, PartialEq, Eq, Structural)]
pub struct PoolSlo {
    pub max_queue_per_replica: u32,
    pub min_replicas: Option<u32>,
    pub max_replicas: Option<u32>,
    pub scale_cooldown_secs: Option<u64>,
}

/// What the planner does with one pool on one tick.
#[derive(Debug, Clone, Copy, PartialEq, Eq, Structural)]
pub enum PlanDecision {
    /// `maxQueuePerReplica` is 0: the pool is not planned.
    Ignore,
    /// The pool already runs the desired number of decode replicas.
    Keep,
    /// A scale to `desired` is wanted, but the last one was too recent.
    CoolingDown { desired: u32 },
    /// Patch the pool's decode replicas to `desired`.
    Scale { desired: u32 },
}

/// Does heartbeat `h` count toward the queue of a pool serving `model`?
pub open spec fn counts_toward(h: Heartbeat, model: Seq<char>) -> bool {
    h.ready && match h.model {
        Some(m) => m@ == model,
        None => false,
    }
}

/// Queue depth summed over the first `n` heartbeats that count toward `model`.
pub open spec fn pool_queue(hbs: Seq<Heartbeat>, model: Seq<char>, n: int) -> int
    decreases n,
{
    if n <= 0 {
        0
    } else {
        pool_queue(hbs, model, n - 1) + if counts_toward(hbs[n - 1], model) {
            hbs[n - 1].queue_depth as int
        } else {
            0int
        }
    }
}

/// Replica floor and ceiling of a pool: the ceiling defaults to the
/// current replica count, so an unbounded queue never scales past it.
pub open spec fn pool_bounds(slo: PoolSlo, current: u32) -> (u32, u32) {
    (
        match slo.min_replicas {
            Some(m) => m,
            None => DEFAULT_MIN_REPLICAS,
        },
        match slo.max_replicas {
            Some(m) => m,
            None => current,
        },
    )
}

/// The planner's decision for one pool, given the nanoseconds since its
/// last scaling (if any).
pub open spec fn spec_plan_pool(
    hbs: Seq<Heartbeat>,
    model: Seq<char>,
    slo: PoolSlo,
    current: u32,
    since_last_scale_nanos: Option<u128>,
) -> PlanDecision {
    if slo.max_queue_per_replica == 0 {
        PlanDecision::Ignore
    } else {
        let (min, max) = pool_bounds(slo, current);
        let total = pool_queue(hbs, model, hbs.len() as int);
        let desired = spec_desired_replicas(total as u32, slo.max_queue_per_replica, min, max) as u32;
        let cooldown = match slo.scale_cooldown_secs {
            Some(c) => c,
            None => DEFAULT_COOLDOWN_SECS,
        };
        if desired == current {
            PlanDecision::Keep
        } else if since_last_scale_nanos matches Some(e) && e < cooldown as int * 1_000_000_000 {
            PlanDecision::CoolingDown { desired }
        } else {
            PlanDecision::Scale { desired }
        }
    }
}

/// Decide what to do with one pool: sum the queue depth of ready nodes
/// serving its model, size it, and respect the scaling cooldown.
/// The summed queue must fit a `u32`, as the counter it is kept in does.
pub fn plan_pool(
    heartbeats: &Vec<Heartbeat>,
    model: &String,
    slo: PoolSlo,
    current: u32,
    since_last_scale_nanos: Option<u128>,
) -> (d: PlanDecision)
    requires
        pool_queue(heartbeats@, model@, heartbeats@.len() as int) <= u32::MAX,
    ensures
        d == spec_plan_pool(heartbeats@, model@, slo, current, since_last_scale_nanos),
{
    if slo.max_queue_per_replica == 0 {
        return PlanDecision::Ignore;
    }
    let min = match slo.min_replicas {
        Some(m) => m,
        None => DEFAULT_MIN_REPLICAS,
    };
    let max = match slo.max_replicas {
        Some(m) => m,
        None => current,
    };
    let mut total: u32 = 0;
    let mut i: usize = 0;
    while i < heartbeats.len()
        invariant
            i <= heartbeats@.len(),
            total == pool_queue(heartbeats@, model@, i as int),
            pool_queue(heartbeats@, model@, heartbeats@.len() as int) <= u32::MAX,
        decreases heartbeats@.len() - i,
    {
        let h = &heartbeats[i];
        let counts = h.ready && match &h.model {
            Some(m) => m.eq(model),
            None => false,
        };
        proof {
            lemma_pool_queue_monotone(heartbeats@, model@, i as int + 1, heartbeats@.len() as int);
        }
        if counts {
            total = total + h.queue_depth;
        }
        i = i + 1;
    }
    let desired = desired_replicas(total, slo.max_queue_per_replica, min, max);
    if desired == current {
        return PlanDecision::Keep;
    }
    let cooldown_secs = match slo.scale_cooldown_secs {
        Some(c) => c,
        None => DEFAULT_COOLDOWN_SECS,
    };
    let cooldown_nanos: u128 = cooldown_secs as u128 * 1_000_000_000;
    match since_last_scale_nanos {
        Some(e) => {
            if e < cooldown_nanos {
                return PlanDecision::CoolingDown { desired };
            }
        },
        None => {},
    }
    PlanDecision::Scale { desired }
}

proof fn lemma_pool_queue_monotone(hbs: Seq<Heartbeat>, model: Seq<char>, a: int, b: int)
    requires
        a <= b,
    ensures
        pool_queue(hbs, model, a) <= pool_queue(hbs, model, b),
    decreases b - a,
{
    if a < b {
        lemma_pool_queue_monotone(hbs, model, a, b - 1);
        if b > 0 {
            assert(pool_queue(hbs, model, b) >= pool_queue(hbs, model, b - 1));
        }
    }
}

/// The planned replica count always lies between the floor and
/// `max(floor, ceiling)`.
pub proof fn law_desired_within_bounds(total_queue: u32, per: u32, min: u32, max: u32)
    ensures
        min <= spec_desired_replicas(total_queue, per, min, max),
        spec_desired_replicas(total_queue, per, min, max) <= if max >= min { max } else { min },
{
}

/// Within the bounds, no replica carries more than its share, and one
/// replica fewer would overload someone.
pub proof fn law_desired_is_smallest_sufficient(total_queue: u32, per: u32, min: u32, max: u32)
    requires
        per > 0,
        min < spec_desired_replicas(total_queue, per, min, max) < max,
    ensures
        spec_desired_replicas(total_queue, per, min, max) * per >= total_queue,
        (spec_desired_replicas(total_queue, per, min, max) - 1) * per < total_queue,
{
    let d = spec_desired_replicas(total_queue, per, min, max);
    assert(d == ceil_div(total_queue as int, per as int));
    assert(d * per >= total_queue && (d - 1) * per < total_queue) by (nonlinear_arith)
        requires
            per > 0,
            d == (total_queue + per - 1) / (per as int),
    ;
}

/// More queued work never asks for fewer replicas.
pub proof fn law_desired_monotone_in_queue(q1: u32, q2: u32, per: u32, min: u32, max: u32)
    requires
        q1 <= q2,
    ensures
        spec_desired_replicas(q1, per, min, max) <= spec_desired_replicas(q2, per, min, max),
{
    let p: int = if per == 0 { 1 } else { per as int };
    assert(ceil_div(q1 as int, p) <= ceil_div(q2 as int, p)) by (nonlinear_arith)
        requires
            p >= 1,
            q1 <= q2,
    {
        vstd::arithmetic::div_mod::lemma_div_is_ordered(q1 + p - 1, q2 + p - 1, p);
    }
}

/// The replica count a decision settles on: the current one when it keeps
/// the pool, the desired one when it scales or waits to; none when the
/// pool is not planned.
pub open spec fn settled_count(d: PlanDecision, current: u32) -> Option<u32> {
    match d {
        PlanDecision::Ignore => None,
        PlanDecision::Keep => Some(current),
        PlanDecision::CoolingDown { desired } => Some(desired),
        PlanDecision::Scale { desired } => Some(desired),
    }
}

/// `ceil(t / p)` replicas of `p` each hold `t`, and one fewer do not.
proof fn lemma_ceil_div_holds(t: int, p: int)
    requires
        t >= 0,
        p > 0,
    ensures
        ceil_div(t, p) >= 0,
        ceil_div(t, p) * p >= t,
        (ceil_div(t, p) - 1) * p < t || ceil_div(t, p) == 0,
{
    let q = (t + p - 1) / p;
    let r = (t + p - 1) % p;
    assert(t + p - 1 == q * p + r && 0 <= r < p) by (nonlinear_arith)
        requires
            p > 0,
            q == (t + p - 1) / p,
            r == (t + p - 1) % p,
    ;
    assert(q >= 0) by (nonlinear_arith)
        requires
            t + p - 1 == q * p + r,
            0 <= r < p,
            t >= 0,
            p > 0,
    ;
    assert((q - 1) * p == q * p - p) by (nonlinear_arith);
}

/// `a <= b` replicas of `p` hold no more than `b` of them.
proof fn lemma_mul_le(a: int, b: int, p: int)
    requires
        a <= b,
        p > 0,
    ensures
        a * p <= b * p,
{
    assert(a * p <= b * p) by (nonlinear_arith)
        requires
            a <= b,
            p > 0,
    ;
}

/// A planned pool is sized to its queue within its bounds. With `per`
/// queued requests allowed per replica, the floor `min_replicas` (1 when
/// unset) and the ceiling `max_replicas` (the current replica count when
/// unset, so that an unbounded queue never scales a pool past what was
/// asked; the floor when the ceiling is below it), the count settled on
/// lies within the bounds, holds the whole queue unless the ceiling stops
/// it, and is no larger than the queue needs unless the floor requires
/// it. The pool is kept exactly when that count is the current one, and
/// a scale waits exactly while the last one is more recent than the
/// cooldown.
pub proof fn law_plan_sizes_pool_to_queue(
    hbs: Seq<Heartbeat>,
    model: Seq<char>,
    slo: PoolSlo,
    current: u32,
    since_last_scale_nanos: Option<u128>,
)
    requires
        slo.max_queue_per_replica > 0,
        pool_queue(hbs, model, hbs.len() as int) <= u32::MAX,
    ensures
        ({
            let d = spec_plan_pool(hbs, model, slo, current, since_last_scale_nanos);
            let total = pool_queue(hbs, model, hbs.len() as int);
            let per = slo.max_queue_per_replica as int;
            let lo: int = match slo.min_replicas {
                Some(m) => m as int,
                None => 1,
            };
            let cap: int = match slo.max_replicas {
                Some(m) => m as int,
                None => current as int,
            };
            let hi: int = if cap >= lo { cap } else { lo };
            let cooldown: int = match slo.scale_cooldown_secs {
                Some(c) => c as int,
                None => 120,
            };
            &&& settled_count(d, current) matches Some(n) && {
                &&& lo <= n <= hi
                &&& (n < hi ==> total <= n * per)
                &&& (n > lo ==> total > (n - 1) * per)
                &&& (d is Keep <==> n == current)
                &&& (d is CoolingDown <==> (n != current && (since_last_scale_nanos matches Some(e) && e
                    < cooldown * 1_000_000_000)))
            }
            &&& (slo.max_replicas is None && lo <= current ==> (settled_count(d, current) matches Some(n) && n
                <= current))
        }),
{
    let total = pool_queue(hbs, model, hbs.len() as int);
    let per = slo.max_queue_per_replica as int;
    let (min, max) = pool_bounds(slo, current);
    assert(total >= 0) by {
        lemma_pool_queue_monotone(hbs, model, 0, hbs.len() as int);
    }
    lemma_ceil_div_holds(total, per);
    let want = ceil_div(total, per);
    let n = spec_desired_replicas(total as u32, slo.max_queue_per_replica, min, max);
    let hi: int = if max >= min { max as int } else { min as int };
    if n < hi {
        if want < min {
            lemma_mul_le(want, n, per);
        }
    }
    if n > min {
        if want > hi {
            lemma_mul_le(n - 1, want - 1, per);
        }
    }
}

} // verus!
