use cognitora::cordon::cordon_action;
use cognitora::cordon::{hint_action, hint_node_id, is_autoscaler_cordon, CordonAction};

#[test]
fn recognizes_own_cordons() {
    assert!(is_autoscaler_cordon(r#"{"set_by":"autoscaler","reason":"idle"}"#));
    assert!(!is_autoscaler_cordon(r#"{"set_by":"cgn-ctl"}"#));
    assert!(!is_autoscaler_cordon(r#"{}"#));
    assert!(!is_autoscaler_cordon("not-json"));
}

#[test]
fn set_by_must_be_a_top_level_string() {
    assert!(!is_autoscaler_cordon(r#"{"meta":{"set_by":"autoscaler"}}"#));
    assert!(!is_autoscaler_cordon(r#"{"set_by":["autoscaler"]}"#));
    assert!(is_autoscaler_cordon(r#"  {"reason":"x", "set_by" : "autoscaler"}"#));
}

#[test]
fn drain_places_only_where_nothing_is_cordoned() {
    assert_eq!(hint_action(true, None), CordonAction::Place);
    assert_eq!(hint_action(true, Some(r#"{"set_by":"cgn-ctl"}"#)), CordonAction::Keep);
}

#[test]
fn release_clears_only_autoscaler_cordons() {
    assert_eq!(hint_action(false, Some(r#"{"set_by":"autoscaler"}"#)), CordonAction::Clear);
    assert_eq!(hint_action(false, Some(r#"{"set_by":"operator"}"#)), CordonAction::Keep);
    assert_eq!(hint_action(false, None), CordonAction::Keep);
}

#[test]
fn hint_keys_name_their_node() {
    assert_eq!(hint_node_id("/cognitora/autoscaler/node-7").as_deref(), Some("node-7"));
    assert_eq!(hint_node_id("/cognitora/other/node-7"), None);
}

#[test]
fn cordon_action_table() {
    assert_eq!(cordon_action(true, false, false), CordonAction::Place);
    assert_eq!(cordon_action(true, true, true), CordonAction::Keep);
    assert_eq!(cordon_action(false, true, true), CordonAction::Clear);
    assert_eq!(cordon_action(false, true, false), CordonAction::Keep);
    assert_eq!(cordon_action(false, false, false), CordonAction::Keep);
}
