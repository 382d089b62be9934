use cognitora::keys::rehashed_line;
use cognitora::keys::key_line_for;
use cognitora::keys::{key_line, lock_text, revoke_text, sha_hex};

const ABC: &str = "ba7816bf8f01cfea414140de5dae2223b00361a396177a9cb410ff61f20015ad";

#[test]
fn sha_hex_is_sha256() {
    assert_eq!(sha_hex(b"abc"), ABC);
    assert_eq!(
        sha_hex(b""),
        "e3b0c44298fc1c149afbf4c8996fb92427ae41e4649b934ca495991b7852b855"
    );
}

#[test]
fn key_line_records_digest_and_scopes() {
    assert_eq!(key_line("abc", "chat,embed"), format!("{ABC} chat,embed\n"));
}

#[test]
fn revoke_drops_matching_prefix_in_any_case() {
    let txt = format!("{ABC} chat\n1111 embed\n  {ABC} other\n");
    assert_eq!(revoke_text(&txt, "BA7816BF"), "1111 embed");
    assert_eq!(revoke_text(&txt, "2222"), format!("{ABC} chat\n1111 embed\n  {ABC} other"));
    assert_eq!(revoke_text("", "ab"), "");
}

#[test]
fn lock_rehashes_plaintext_keys_only() {
    let txt = format!("abc chat,embed\n{ABC} chat\n\n   \nabc\n");
    assert_eq!(
        lock_text(&txt),
        format!("{ABC} chat,embed\n{ABC} chat\n\n\n{ABC} \n")
    );
}

#[test]
fn key_line_for_lays_out_digest_and_scopes() {
    assert_eq!(key_line_for("00ff", "chat"), "00ff chat\n");
    assert_eq!(key_line_for("ab", ""), "ab \n");
}

#[test]
fn rehashed_line_keeps_the_scopes() {
    assert_eq!(rehashed_line("beef", "  secret-key chat,embed  trailing"), "beef chat,embed");
    assert_eq!(rehashed_line("beef", "secret"), "beef ");
}
