//! Request handling of the agent's RPC surface that does not touch the
//! engine: argument checks, defaults, and the address of the host-local
//! KV daemon.
use vstd::prelude::*;

use crate::kvcached::{Reply, CODE_INVALID_ARGUMENT};
use crate::spawn::{replace_all, replace_chars};
use crate::text::{chars_of, push_all, push_str, string_from_chars};

verus! {

/// Tokens generated when a request asks for none.
pub const DEFAULT_MAX_TOKENS: u32 = 256;

/// The generation budget of a request: as asked, 256 when it asks for 0.
pub fn generate_max_tokens(requested: u32) -> (n: u32)
    ensures
        n == if requested == 0 { DEFAULT_MAX_TOKENS } else { requested },
{
    if requested == 0 { DEFAULT_MAX_TOKENS } else { requested }
}

/// An embeddings request needs at least one input.
pub fn check_embed_inputs(n: usize) -> (r: Result<(), Reply>)
    ensures
        r is Ok <==> n > 0,
        r matches Err(e) ==> e.code == CODE_INVALID_ARGUMENT && e.message@ == "inputs must be non-empty"@,
{
    if n == 0 {
        return Err(Reply { code: CODE_INVALID_ARGUMENT, message: String::from_str("inputs must be non-empty") });
    }
    Ok(())
}

/// A KV handoff names a 32-byte prefix digest.
pub fn check_prefix_hash(len: usize) -> (r: Result<(), Reply>)
    ensures
        r is Ok <==> len == 32,
        r matches Err(e) ==> e.code == CODE_INVALID_ARGUMENT && e.message@ == "prefix_hash must be 32 bytes"@,
{
    if len != 32 {
        return Err(Reply { code: CODE_INVALID_ARGUMENT, message: String::from_str("prefix_hash must be 32 bytes") });
    }
    Ok(())
}

/// Direction of a KV handoff.
#[derive(Debug, Clone, Copy, PartialEq, Eq, Structural)]
pub enum HandoffDirection {
    Unspecified,
    Push,
    Pull,
}

/// A handoff must push or pull.
pub fn check_direction(d: HandoffDirection) -> (r: Result<(), Reply>)
    ensures
        r is Ok <==> d != HandoffDirection::Unspecified,
        r matches Err(e) ==> e.code == CODE_INVALID_ARGUMENT && e.message@ == "direction must be PUSH or PULL"@,
{
    match d {
        HandoffDirection::Unspecified => Err(
            Reply { code: CODE_INVALID_ARGUMENT, message: String::from_str("direction must be PUSH or PULL") },
        ),
        _ => Ok(()),
    }
}

/// The URI the agent reaches its host's KV daemon at: the daemon's
/// listen address with a wildcard host replaced by loopback.
pub open spec fn spec_local_kv_uri(listen: Seq<char>) -> Seq<char> {
    "http://"@ + replace_all(listen, "0.0.0.0"@, "127.0.0.1"@)
}

pub fn local_kv_uri(listen: &str) -> (u: String)
    ensures
        u@ == spec_local_kv_uri(listen@),
{
    let l = chars_of(listen);
    let pat = chars_of("0.0.0.0");
    let rep = chars_of("127.0.0.1");
    proof {
        reveal_strlit("0.0.0.0");
    }
    assert(pat@.len() > 0);
    let local = replace_chars(l.as_slice(), pat.as_slice(), rep.as_slice());
    let mut v: Vec<char> = Vec::new();
    push_str(&mut v, "http://");
    push_all(&mut v, local.as_slice());
    string_from_chars(v.as_slice())
}

/// A generate stream opens with its request; one that closes before
/// sending it is refused.
pub fn first_generate_request<T>(first: Option<T>) -> (r: Result<T, Reply>)
    ensures
        match first {
            Some(x) => r == Ok::<T, Reply>(x),
            None => r matches Err(e) && e.code == CODE_INVALID_ARGUMENT && e.message@ == "empty agent stream"@,
        },
{
    match first {
        Some(x) => Ok(x),
        None => Err(Reply { code: CODE_INVALID_ARGUMENT, message: String::from_str("empty agent stream") }),
    }
}

} // verus!
