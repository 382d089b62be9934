//! Autoscaler hint consumption: drain hints become cordon flags, and
//! only cordons the autoscaler placed itself are ever cleared.
use vstd::prelude::*;

use crate::text::{chars_of, copy_range, string_from_chars};

verus! {

/// Prefix of the etcd keys holding per-node drain hints.
pub const HINT_PREFIX: &'static str = "/cognitora/autoscaler/";

/// The string value stored under `key` at the top level of the JSON
/// object `text`; `None` when `text` is not JSON, not an object, or has
/// no string under `key`.
pub uninterp spec fn json_top_level_string(text: Seq<char>, key: Seq<char>) -> Option<Seq<char>>;

/// Parses `text` with `serde_json::from_str` into a `serde_json::Value`
/// and reads the string stored under `key` of that object
/// (`Value::get` then `Value::as_str`). Claimed: the result is a
/// function of `text` and `key` alone, named above; nothing is stated
/// about which texts parse.
#[verifier::external_body]
fn json_string_field(text: &str, key: &str) -> (r: Option<String>)
    ensures
        match r {
            Some(s) => json_top_level_string(text@, key@) == Some(s@),
            None => json_top_level_string(text@, key@) is None,
        },
{
    serde_json::from_str::<serde_json::Value>(text).ok().and_then(
        |v| v.get(key).and_then(|s| s.as_str()).map(String::from),
    )
}

/// Was this cordon value written by the autoscaler?
pub open spec fn spec_is_autoscaler_cordon(value: Seq<char>) -> bool {
    json_top_level_string(value, "set_by"@) == Some("autoscaler"@)
}

/// Is `set_by` equal to `"autoscaler"`, given the field's value?
#[verifier::loop_isolation(false)]
pub fn set_by_is_autoscaler(set_by: Option<String>) -> (b: bool)
    ensures
        b == (set_by matches Some(s) && s@ == "autoscaler"@),
{
    match set_by {
        Some(s) => {
            let a = chars_of(s.as_str());
            let b = chars_of("autoscaler");
            if a.len() != b.len() {
                return false;
            }
            let mut i: usize = 0;
            while i < a.len()
                invariant
                    a@.len() == b@.len(),
                    a@ == s@,
                    b@ == "autoscaler"@,
                    i <= a@.len(),
                    forall|k: int| 0 <= k < i ==> a@[k] == b@[k],
                decreases a@.len() - i,
            {
                if a[i] != b[i] {
                    assert(a@[i as int] != b@[i as int]);
                    assert(a@ != b@);
                    return false;
                }
                i = i + 1;
            }
            assert(a@ =~= b@);
            true
        },
        None => false,
    }
}

/// Was this cordon value written by the autoscaler?
pub fn is_autoscaler_cordon(value: &str) -> (b: bool)
    ensures
        b == spec_is_autoscaler_cordon(value@),
{
    set_by_is_autoscaler(json_string_field(value, "set_by"))
}

/// What to do with a node's cordon for one hint.
#[derive(Debug, Clone, Copy, PartialEq, Eq, Structural)]
pub enum CordonAction {
    /// Leave the cordon key as it is.
    Keep,
    /// Write an autoscaler cordon for the node.
    Place,
    /// Delete the node's cordon.
    Clear,
}

/// A drain hint cordons a node not yet cordoned (by anyone); a release
/// hint clears only a cordon the autoscaler placed.
pub open spec fn spec_hint_action(drain: bool, existing: Option<Seq<char>>) -> CordonAction {
    if drain {
        if existing is Some {
            CordonAction::Keep
        } else {
            CordonAction::Place
        }
    } else {
        match existing {
            Some(v) => if spec_is_autoscaler_cordon(v) {
                CordonAction::Clear
            } else {
                CordonAction::Keep
            },
            None => CordonAction::Keep,
        }
    }
}

/// What a hint does given whether the node is cordoned and whether that
/// cordon was placed by the autoscaler.
pub fn cordon_action(drain: bool, cordoned: bool, placed_by_autoscaler: bool) -> (a: CordonAction)
    ensures
        a == if drain {
            if cordoned { CordonAction::Keep } else { CordonAction::Place }
        } else if cordoned && placed_by_autoscaler {
            CordonAction::Clear
        } else {
            CordonAction::Keep
        },
{
    if drain {
        if cordoned { CordonAction::Keep } else { CordonAction::Place }
    } else if cordoned && placed_by_autoscaler {
        CordonAction::Clear
    } else {
        CordonAction::Keep
    }
}

/// Decide what a hint does to the node's current cordon value.
pub fn hint_action(drain: bool, existing: Option<&str>) -> (a: CordonAction)
    ensures
        a == spec_hint_action(
            drain,
            match existing {
                Some(v) => Some(v@),
                None => None,
            },
        ),
{
    match existing {
        Some(v) => {
            let ours = if drain { false } else { is_autoscaler_cordon(v) };
            cordon_action(drain, true, ours)
        },
        None => cordon_action(drain, false, false),
    }
}

/// Node id of a hint key: the key without the hint prefix.
pub open spec fn spec_hint_node_id(key: Seq<char>) -> Option<Seq<char>> {
    let p = "/cognitora/autoscaler/"@;
    if p.len() <= key.len() && key.take(p.len() as int) == p {
        Some(key.skip(p.len() as int))
    } else {
        None
    }
}

/// The node id a hint key names, if the key is under the hint prefix.
pub fn hint_node_id(key: &str) -> (r: Option<String>)
    ensures
        match r {
            Some(id) => spec_hint_node_id(key@) == Some(id@),
            None => spec_hint_node_id(key@) is None,
        },
{
    let k = chars_of(key);
    let p = chars_of(HINT_PREFIX);
    assert(p@ == "/cognitora/autoscaler/"@);
    if p.len() > k.len() {
        return None;
    }
    let mut i: usize = 0;
    while i < p.len()
        invariant
            p@.len() <= k@.len(),
            p@ == "/cognitora/autoscaler/"@,
            k@ == key@,
            i <= p@.len(),
            forall|j: int| 0 <= j < i ==> k@[j] == p@[j],
        decreases p@.len() - i,
    {
        if k[i] != p[i] {
            assert(k@.take(p@.len() as int)[i as int] != p@[i as int]);
            return None;
        }
        i = i + 1;
    }
    assert(k@.take(p@.len() as int) =~= p@);
    let rest = copy_range(k.as_slice(), p.len(), k.len());
    assert(rest@ =~= k@.skip(p@.len() as int));
    Some(string_from_chars(rest.as_slice()))
}

/// A drain hint never clears a cordon, and a release hint never places
/// one; a cordon not set by the autoscaler is never cleared.
pub proof fn law_manual_cordons_survive(drain: bool, existing: Option<Seq<char>>)
    ensures
        drain ==> spec_hint_action(drain, existing) != CordonAction::Clear,
        !drain ==> spec_hint_action(drain, existing) != CordonAction::Place,
        existing matches Some(v) && !spec_is_autoscaler_cordon(v) ==> spec_hint_action(drain, existing)
            != CordonAction::Clear,
{
}

} // verus!
