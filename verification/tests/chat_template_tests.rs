use cognitora::chat_template::ChatTemplate;
use cognitora::error::Error;
use cognitora::wire::ChatMessage;

fn msgs() -> Vec<ChatMessage> {
    vec![
        ChatMessage { role: "system".into(), content: "You are helpful.".into() },
        ChatMessage { role: "user".into(), content: "Hi!".into() },
    ]
}

#[test]
fn chatml_fallback_renders() {
    let t = ChatTemplate::new(None, None, None).unwrap();
    let out = t.render(&msgs()).unwrap();
    assert_eq!(
        out,
        "<|im_start|>system\nYou are helpful.<|im_end|>\n\
         <|im_start|>user\nHi!<|im_end|>\n\
         <|im_start|>assistant\n"
    );
}

#[test]
fn llama3_style_template_renders() {
    let tmpl = "{{ bos_token }}{% for message in messages %}<|start_header_id|>{{ message['role'] }}<|end_header_id|>\n\n{{ message['content'] }}<|eot_id|>{% endfor %}{% if add_generation_prompt %}<|start_header_id|>assistant<|end_header_id|>\n\n{% endif %}";
    let t = ChatTemplate::new(Some(tmpl.into()), Some("<|begin_of_text|>".into()), None).unwrap();
    let out = t.render(&msgs()).unwrap();
    assert!(out.starts_with("<|begin_of_text|><|start_header_id|>system<|end_header_id|>"));
    assert!(out.contains("Hi!<|eot_id|>"));
    assert!(out.ends_with("<|start_header_id|>assistant<|end_header_id|>\n\n"));
}

#[test]
fn raise_exception_maps_to_invalid_argument() {
    let tmpl = "{{ raise_exception('nope') }}";
    let t = ChatTemplate::new(Some(tmpl.into()), None, None).unwrap();
    let err = t.render(&msgs()).unwrap_err();
    assert!(matches!(err, Error::InvalidArgument(_)), "{err:?}");
}

#[test]
fn bad_template_fails_at_compile() {
    assert!(ChatTemplate::new(Some("{% bogus".into()), None, None).is_err());
}

#[test]
fn compile_and_render_errors_carry_their_prefix() {
    match ChatTemplate::new(Some("{% bogus".into()), None, None) {
        Err(Error::Config(m)) => assert!(m.starts_with("chat template: "), "{m}"),
        _ => panic!("expected a config error"),
    }
    let t = ChatTemplate::new(Some("{{ raise_exception('nope') }}".into()), None, None).unwrap();
    match t.render(&msgs()) {
        Err(Error::InvalidArgument(m)) => assert!(m.starts_with("chat template render: "), "{m}"),
        _ => panic!("expected a render error"),
    }
}
