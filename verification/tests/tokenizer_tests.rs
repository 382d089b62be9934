use cognitora::error::Error;
use cognitora::tokenizer::{bpe_merges, tokenizer_family, unsupported_family_error, TokenizerFamily};

#[test]
fn tokenizer_family_from_gguf_model_name() {
    assert_eq!(tokenizer_family(Some("llama")).unwrap(), TokenizerFamily::Unigram);
    assert_eq!(tokenizer_family(Some("gpt2")).unwrap(), TokenizerFamily::Bpe);
    match tokenizer_family(None) {
        Err(Error::Config(m)) => assert_eq!(m, "gguf: missing tokenizer.ggml.model"),
        other => panic!("unexpected {other:?}"),
    }
    match tokenizer_family(Some("rwkv")) {
        Err(Error::Config(m)) => {
            assert_eq!(m, "unsupported gguf tokenizer model \"rwkv\" (expected \"llama\" or \"gpt2\")")
        }
        other => panic!("unexpected {other:?}"),
    }
}

#[test]
fn bpe_merges_split_at_the_first_space() {
    let raw: Vec<String> = vec!["Ġ t".into(), "nospace".into(), "a b c".into(), " x".into()];
    let m = bpe_merges(&raw);
    let got: Vec<(&str, &str)> = m.iter().map(|(a, b)| (a.as_str(), b.as_str())).collect();
    assert_eq!(got, vec![("Ġ", "t"), ("a", "b c"), ("", "x")]);
}

#[test]
fn unsupported_family_message_wraps_the_quoted_name() {
    match unsupported_family_error("\"x\\ny\"") {
        Error::Config(m) => assert_eq!(m, "unsupported gguf tokenizer model \"x\\ny\" (expected \"llama\" or \"gpt2\")"),
        other => panic!("unexpected {other:?}"),
    }
    // The name is quoted and escaped as Rust's Debug writes it.
    match tokenizer_family(Some("a\"b")) {
        Err(Error::Config(m)) => assert_eq!(m, "unsupported gguf tokenizer model \"a\\\"b\" (expected \"llama\" or \"gpt2\")"),
        other => panic!("unexpected {other:?}"),
    }
}
