use cognitora::vllm::{find_subseq, vllm_frame_payload, VllmBuffer};

#[test]
fn find_subseq_finds_the_first_window() {
    assert_eq!(find_subseq(b"a\n\nb\n\n", b"\n\n"), Some(1));
    assert_eq!(find_subseq(b"abc", b"abcd"), None);
    assert_eq!(find_subseq(b"abab", b"ba"), Some(1));
}

#[test]
fn vllm_frames_split_at_blank_lines() {
    let mut b = VllmBuffer::new();
    let out = b.push(b"data: {\"choices\":[]}\n\ndata:data: x\n\nda");
    assert_eq!(out, vec!["{\"choices\":[]}".to_string(), "x".to_string()]);
    let out = b.push(b"ta: [DONE]\n\n");
    assert_eq!(out, vec!["[DONE]".to_string()]);
}

#[test]
fn vllm_frame_without_data_is_skipped() {
    assert_eq!(vllm_frame_payload(b": ping\n\n"), None);
    assert_eq!(vllm_frame_payload(b"  data:  y \n\n").as_deref(), Some("y"));
    assert_eq!(vllm_frame_payload(&[0xc3, 0x28, 10, 10]), None);
}

#[test]
fn vllm_chunking_does_not_change_the_payloads() {
    let stream: &[u8] = b"data: {\"a\":1}\n\nnoise\n\ndata: [DONE]\n\ndata: par";
    let mut whole = VllmBuffer::new();
    let at_once = whole.push(stream);
    for cut in 0..=stream.len() {
        let mut split = VllmBuffer::new();
        let mut got = split.push(&stream[..cut]);
        got.extend(split.push(&stream[cut..]));
        assert_eq!(got, at_once, "cut at {}", cut);
    }
    assert_eq!(at_once, vec!["{\"a\":1}".to_string(), "[DONE]".to_string()]);
    assert_eq!(whole.push(b"tial\n\n"), vec!["partial".to_string()]);
}
