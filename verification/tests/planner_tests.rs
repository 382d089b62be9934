use cognitora::planner::{desired_replicas, plan_pool, Heartbeat, PlanDecision, PoolSlo};

#[test]
fn zero_queue_floors_at_min() {
    assert_eq!(desired_replicas(0, 8, 1, 10), 1);
    assert_eq!(desired_replicas(0, 8, 3, 10), 3);
}

#[test]
fn scales_up_with_queue() {
    assert_eq!(desired_replicas(17, 8, 1, 10), 3);
    assert_eq!(desired_replicas(16, 8, 1, 10), 2);
    assert_eq!(desired_replicas(9, 8, 1, 10), 2);
}

#[test]
fn scales_down_when_queue_shrinks() {
    assert_eq!(desired_replicas(5, 8, 1, 10), 1);
}

#[test]
fn clamps_to_max() {
    assert_eq!(desired_replicas(1000, 8, 1, 4), 4);
}

#[test]
fn zero_per_replica_does_not_divide_by_zero() {
    assert_eq!(desired_replicas(100, 0, 1, 4), 4);
}

#[test]
fn min_wins_over_smaller_max() {
    assert_eq!(desired_replicas(0, 8, 5, 2), 5);
}

fn hb(model: &str, q: u32, ready: bool) -> Heartbeat {
    Heartbeat { model: Some(model.to_string()), queue_depth: q, ready }
}

fn slo(per: u32) -> PoolSlo {
    PoolSlo { max_queue_per_replica: per, min_replicas: None, max_replicas: Some(10), scale_cooldown_secs: None }
}

#[test]
fn plan_counts_only_ready_nodes_of_the_model() {
    let hbs = vec![hb("a", 10, true), hb("a", 7, true), hb("b", 100, true), hb("a", 50, false)];
    let d = plan_pool(&hbs, &"a".to_string(), slo(8), 1, None);
    assert_eq!(d, PlanDecision::Scale { desired: 3 });
}

#[test]
fn plan_keeps_a_pool_at_its_size() {
    let hbs = vec![hb("a", 16, true)];
    assert_eq!(plan_pool(&hbs, &"a".to_string(), slo(8), 2, None), PlanDecision::Keep);
}

#[test]
fn plan_respects_cooldown() {
    let hbs = vec![hb("a", 30, true)];
    let d = plan_pool(&hbs, &"a".to_string(), slo(8), 1, Some(5_000_000_000));
    assert_eq!(d, PlanDecision::CoolingDown { desired: 4 });
    let d = plan_pool(&hbs, &"a".to_string(), slo(8), 1, Some(10_000_000_000_000));
    assert_eq!(d, PlanDecision::Scale { desired: 4 });
}

#[test]
fn plan_ignores_pools_without_objective() {
    let hbs = vec![hb("a", 30, true)];
    assert_eq!(plan_pool(&hbs, &"a".to_string(), slo(0), 1, None), PlanDecision::Ignore);
}
