use cognitora::agent::{
    check_direction, check_embed_inputs, check_prefix_hash, first_generate_request, generate_max_tokens,
    local_kv_uri,
    HandoffDirection,
};

#[test]
fn generation_budget_defaults_to_256() {
    assert_eq!(generate_max_tokens(0), 256);
    assert_eq!(generate_max_tokens(64), 64);
}

#[test]
fn rpc_arguments_are_checked() {
    assert!(check_embed_inputs(1).is_ok());
    let e = check_embed_inputs(0).unwrap_err();
    assert_eq!((e.code, e.message.as_str()), (3, "inputs must be non-empty"));
    assert!(check_prefix_hash(32).is_ok());
    let e = check_prefix_hash(31).unwrap_err();
    assert_eq!((e.code, e.message.as_str()), (3, "prefix_hash must be 32 bytes"));
    assert!(check_direction(HandoffDirection::Push).is_ok());
    assert!(check_direction(HandoffDirection::Pull).is_ok());
    let e = check_direction(HandoffDirection::Unspecified).unwrap_err();
    assert_eq!((e.code, e.message.as_str()), (3, "direction must be PUSH or PULL"));
}

#[test]
fn kv_daemon_is_reached_over_loopback() {
    assert_eq!(local_kv_uri("0.0.0.0:7072"), "http://127.0.0.1:7072");
    assert_eq!(local_kv_uri("10.1.2.3:7072"), "http://10.1.2.3:7072");
}

#[test]
fn generate_stream_needs_its_request() {
    assert_eq!(first_generate_request(Some(7u32)).ok(), Some(7));
    let e = first_generate_request::<u32>(None).unwrap_err();
    assert_eq!(e.message, "empty agent stream");
    assert_eq!(e.code, cognitora::kvcached::CODE_INVALID_ARGUMENT);
}
