use cognitora::federation::federate_reply;
use cognitora::federation::join_scraped;
use cognitora::federation::{decorate_with_target, escape_label_value};

#[test]
fn decorate_passes_through_help_and_type() {
    let body = "\
# HELP foo The foo gauge.
# TYPE foo gauge
foo 1
";
    let out = decorate_with_target(body, "router");
    assert!(out.contains("# HELP foo The foo gauge."));
    assert!(out.contains("# TYPE foo gauge"));
    assert!(out.contains("foo{cgn_target=\"router\"} 1"));
}

#[test]
fn decorate_injects_into_existing_labels() {
    let body = r#"http_requests_total{method="get",code="200"} 42"#;
    let out = decorate_with_target(body, "agent-1");
    assert!(
        out.contains(r#"http_requests_total{method="get",code="200",cgn_target="agent-1"} 42"#),
        "out = {out}"
    );
}

#[test]
fn decorate_handles_empty_label_set() {
    let body = "ready{} 1";
    let out = decorate_with_target(body, "kv");
    assert!(out.contains(r#"ready{cgn_target="kv"} 1"#), "out = {out}");
}

#[test]
fn decorate_escapes_quotes_and_backslashes() {
    let body = "ok 1";
    let out = decorate_with_target(body, r#"name with " and \ "#);
    assert!(out.contains(r#"ok{cgn_target="name with \" and \\ "} 1"#), "out = {out}");
}

#[test]
fn decorate_skips_blank_lines() {
    let body = "ok 1\n\nok2 2\n";
    let out = decorate_with_target(body, "x");
    assert!(out.contains(r#"ok{cgn_target="x"} 1"#));
    assert!(out.contains(r#"ok2{cgn_target="x"} 2"#));
}

#[test]
fn decorated_body_is_exact() {
    let out = decorate_with_target("a 1\r\nb{x=\"y\"} 2", "t");
    assert_eq!(
        out,
        "# cgn-metrics: federated from target t\na{cgn_target=\"t\"} 1\nb{x=\"y\",cgn_target=\"t\"} 2\n"
    );
}

#[test]
fn escaping_covers_newlines() {
    assert_eq!(escape_label_value("a\nb\"c\\"), "a\\nb\\\"c\\\\");
}

#[test]
fn scraped_bodies_join_with_line_breaks_skipping_failures() {
    let out = join_scraped(&[Some("a 1".to_string()), None, Some("b 2".to_string())]);
    assert_eq!(out, "a 1\nb 2");
    assert_eq!(join_scraped(&[None, None]), "");
    assert_eq!(join_scraped(&[None, Some("x".to_string())]), "x");
}

#[test]
fn federate_endpoint_replies() {
    assert_eq!(
        federate_reply(""),
        (503, None, "no scrape targets configured or first scrape pending".to_string())
    );
    assert_eq!(
        federate_reply("a{cgn_target=\"x\"} 1\n"),
        (200, Some("text/plain; version=0.0.4"), "a{cgn_target=\"x\"} 1\n".to_string())
    );
}
