use cognitora::wire::{check_chat_messages, completion_id};
use cognitora::error::Error;
use cognitora::wire::error_reply;
use cognitora::wire::{
    chat_chunk_for, chat_completion_response, completion_chunk_for, completion_response,
    default_max_tokens, first_chat_chunk, model_list, usage, PromptField, StopField, StreamCollector,
    StreamEvent,
};

fn ev(delta: &str, finish: Option<&str>, p: usize, c: usize) -> StreamEvent {
    StreamEvent {
        delta: delta.into(),
        finish_reason: finish.map(|f| f.to_string()),
        prompt_tokens: p,
        completion_tokens: c,
    }
}

#[test]
fn stop_accepts_string_or_array_values() {
    assert_eq!(StopField::One("x".into()).into_vec(), vec!["x".to_string()]);
    assert_eq!(
        StopField::Many(vec!["a".into(), "b".into()]).into_vec(),
        vec!["a".to_string(), "b".to_string()]
    );
}

#[test]
fn prompt_arrays_are_joined_without_separator() {
    assert_eq!(PromptField::One("hi".into()).into_string(), "hi");
    assert_eq!(PromptField::Many(vec!["a".into(), "bc".into(), "".into()]).into_string(), "abc");
    assert_eq!(default_max_tokens(), 512);
}

#[test]
fn collector_gathers_text_and_counts() {
    let mut c = StreamCollector::new();
    assert!(!c.absorb(ev("Hel", None, 3, 1)));
    assert!(!c.absorb(ev("lo", None, 3, 2)));
    assert!(c.absorb(ev("", Some("length"), 3, 2)));
    let r = c.result().unwrap();
    assert_eq!(r.text, "Hello");
    assert_eq!(r.finish, "length");
    assert_eq!((r.prompt_tokens, r.completion_tokens), (3, 2));
}

#[test]
fn collector_reports_error_finish_as_none() {
    let mut c = StreamCollector::new();
    c.absorb(ev("x", Some("error"), 0, 0));
    assert!(c.result().is_none());
    let r = StreamCollector::new().result().unwrap();
    assert_eq!(r.finish, "stop");
}

#[test]
fn buffered_responses_carry_usage() {
    let mut c = StreamCollector::new();
    c.absorb(ev("hi", Some("stop"), 4, 1));
    let collected = c.result().unwrap();
    let r = chat_completion_response("id1".into(), "m".into(), 7, collected.clone());
    assert_eq!(r.object, "chat.completion");
    assert_eq!(r.choices.len(), 1);
    assert_eq!(r.choices[0].message.role, "assistant");
    assert_eq!(r.choices[0].message.content, "hi");
    assert_eq!(r.usage, usage(4, 1));
    assert_eq!(r.usage.total_tokens, 5);
    let r = completion_response("id2".into(), "m".into(), 7, collected);
    assert_eq!(r.object, "text_completion");
    assert_eq!(r.choices[0].text, "hi");
    assert_eq!(r.choices[0].finish_reason, "stop");
}

#[test]
fn chunks_follow_the_openai_shape() {
    let first = first_chat_chunk("c".into(), "m".into(), 1);
    assert_eq!(first.object, "chat.completion.chunk");
    assert_eq!(first.choices[0].delta.role.as_deref(), Some("assistant"));
    assert!(first.choices[0].delta.content.is_none());
    let (chunk, done) = chat_chunk_for("c".into(), "m".into(), 1, ev("", Some("stop"), 1, 1));
    assert!(done);
    assert!(chunk.choices[0].delta.content.is_none());
    assert_eq!(chunk.choices[0].finish_reason.as_deref(), Some("stop"));
    let (chunk, done) = chat_chunk_for("c".into(), "m".into(), 1, ev("x", None, 1, 1));
    assert!(!done);
    assert_eq!(chunk.choices[0].delta.content.as_deref(), Some("x"));
    let (chunk, done) = completion_chunk_for("c".into(), "m".into(), 1, ev("", None, 1, 1));
    assert!(!done);
    assert_eq!(chunk.choices[0].text, "");
}

#[test]
fn model_listing_names_the_served_model() {
    let l = model_list("llama".into(), 5);
    assert_eq!(l.object, "list");
    assert_eq!(l.data.len(), 1);
    assert_eq!(l.data[0].id, "llama");
    assert_eq!(l.data[0].owned_by, "cognitora");
}

#[test]
fn errors_map_to_openai_replies() {
    let (status, body) = error_reply(&Error::InvalidArgument("messages must not be empty".into()));
    assert_eq!(status, 400);
    assert_eq!(body.error.kind, "invalid_request_error");
    assert_eq!(body.error.message, "messages must not be empty");
    assert_eq!(error_reply(&Error::Config("x".into())).0, 400);
    let (s, b) = error_reply(&Error::NotFound("no model".into()));
    assert_eq!((s, b.error.kind), (404, "invalid_request_error"));
    let (s, b) = error_reply(&Error::Unavailable("busy".into()));
    assert_eq!((s, b.error.kind), (503, "server_error"));
    let (s, b) = error_reply(&Error::Internal("generation failed".into()));
    assert_eq!((s, b.error.kind), (500, "server_error"));
}

#[test]
fn chat_requests_need_messages_and_ids_are_prefixed() {
    match check_chat_messages(0) {
        Err(Error::InvalidArgument(m)) => assert_eq!(m, "messages must not be empty"),
        other => panic!("unexpected {other:?}"),
    }
    assert!(check_chat_messages(2).is_ok());
    assert_eq!(completion_id(true, "0a1b"), "chatcmpl-0a1b");
    assert_eq!(completion_id(false, "0a1b"), "cmpl-0a1b");
}
