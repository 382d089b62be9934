use cognitora::sse::{
    completion_path, digest_hex, find_frame_end, frame_payload, kv_transfer_params_from_digests,
    payload_is_done, piece_from_choice, stream_step, ChatDelta, SseBuffer, StreamChoice, StreamStep,
};

#[test]
fn frame_end_handles_lf_and_crlf() {
    assert_eq!(find_frame_end(b"data: x\n\nrest"), Some(9));
    assert_eq!(find_frame_end(b"data: x\r\n\r\nrest"), Some(11));
    assert_eq!(find_frame_end(b"data: x\n"), None);
    assert_eq!(find_frame_end(b"data: x\r\n"), None);
    assert_eq!(find_frame_end(b""), None);
}

#[test]
fn kv_transfer_params_from_digests_hex_encodes() {
    let d = vec![0u8; 32];
    let r = vec![1u8; 32];
    let v = kv_transfer_params_from_digests(&[d.clone()], &[r.clone()]).unwrap();
    let arr = &v.prefix_digests;
    assert_eq!(arr.len(), 1);
    assert_eq!(arr[0].len(), 64);
    let resident = v.resident_digests.as_ref().unwrap();
    assert_eq!(resident.len(), 1);
    assert!(kv_transfer_params_from_digests(&[], &[]).is_none());
    assert!(kv_transfer_params_from_digests(&[vec![1, 2, 3]], &[]).is_none());
    let v2 = kv_transfer_params_from_digests(&[d], &[]).unwrap();
    assert!(v2.resident_digests.is_none());
}

#[test]
fn digests_are_lower_hex() {
    let out = digest_hex(&[vec![0xabu8; 32], vec![1, 2]]);
    assert_eq!(out.len(), 1);
    assert_eq!(out[0], "ab".repeat(32));
}

#[test]
fn buffer_hands_out_complete_frames_only() {
    let mut b = SseBuffer::new();
    let p = b.push(b"data: {\"a\":1}\n\ndata: [DO");
    assert_eq!(p, vec!["{\"a\":1}".to_string()]);
    let p = b.push(b"NE]\r\n\r\n: comment\n\n");
    assert_eq!(p, vec!["[DONE]".to_string()]);
    assert!(payload_is_done(&p[0]));
    assert!(!payload_is_done("[DONE] "));
}

#[test]
fn frame_payload_reads_the_data_line() {
    assert_eq!(frame_payload(b"event: x\ndata:  data: {}  \n\n").as_deref(), Some("data: {}"));
    assert_eq!(frame_payload(b"data:data: {}\n\n").as_deref(), Some("{}"));
    assert_eq!(frame_payload(b": keepalive\n\n"), None);
    assert_eq!(frame_payload(&[0xff, 0xfe, b'\n', b'\n']), None);
}

#[test]
fn chat_delta_wins_over_text() {
    let c = StreamChoice {
        text: Some("legacy".into()),
        delta: Some(ChatDelta { content: Some(" four".into()), tool_calls_json: None }),
        finish_reason: None,
    };
    let p = piece_from_choice(&c).unwrap();
    assert_eq!(p.text, " four");
    assert_eq!(p.finish, "");
}

#[test]
fn role_only_chunk_contributes_nothing() {
    let c = StreamChoice {
        text: None,
        delta: Some(ChatDelta { content: None, tool_calls_json: None }),
        finish_reason: None,
    };
    assert!(piece_from_choice(&c).is_none());
    let f = StreamChoice { text: None, delta: None, finish_reason: Some("stop".into()) };
    assert_eq!(piece_from_choice(&f).unwrap().finish, "stop");
}

#[test]
fn completion_route_follows_mode() {
    assert_eq!(completion_path(true), "/v1/chat/completions");
    assert_eq!(completion_path(false), "/v1/completions");
}

#[test]
fn chunking_does_not_change_the_payloads() {
    let stream: &[u8] = b"data: one\n\ndata: two\r\n\r\n: ping\n\ndata: three\n\ndata: tail";
    let mut whole = SseBuffer::new();
    let at_once = whole.push(stream);
    for cut in 0..=stream.len() {
        let mut split = SseBuffer::new();
        let mut got = split.push(&stream[..cut]);
        got.extend(split.push(&stream[cut..]));
        assert_eq!(got, at_once, "cut at {}", cut);
    }
    assert_eq!(at_once, vec!["one".to_string(), "two".to_string(), "three".to_string()]);
    let mut rest = whole;
    assert_eq!(rest.push(b"\n\n"), vec!["tail".to_string()]);
}

#[test]
fn stream_step_ends_on_done_and_skips_empty_choices() {
    match stream_step("[DONE]", None) {
        StreamStep::Done(p) => {
            assert_eq!(p.text, "");
            assert_eq!(p.finish, "stop");
            assert_eq!(p.tool_calls_json, "");
        }
        other => panic!("unexpected {other:?}"),
    }
    let role_only = StreamChoice {
        text: None,
        delta: Some(ChatDelta { content: None, tool_calls_json: None }),
        finish_reason: None,
    };
    let text = StreamChoice {
        text: None,
        delta: Some(ChatDelta { content: Some(" four".into()), tool_calls_json: None }),
        finish_reason: None,
    };
    match stream_step("{...}", Some(&[role_only, text])) {
        StreamStep::Pieces(v) => {
            assert_eq!(v.len(), 1);
            assert_eq!(v[0].text, " four");
        }
        other => panic!("unexpected {other:?}"),
    }
    match stream_step("not json", None) {
        StreamStep::Pieces(v) => assert!(v.is_empty()),
        other => panic!("unexpected {other:?}"),
    }
}
