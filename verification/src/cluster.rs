//! `cgn-ctl cluster`: the node table — one line per registered agent,
//! cordoned nodes marked — and the etcd keys cordons live under.
use vstd::prelude::*;

use crate::error::Error;
use crate::order::string_views;
use crate::text::{push_str, str_eq, string_from_chars};

verus! {

/// `cgn-ctl cluster` subcommands.
#[derive(Debug, Clone)]
pub enum Cmd {
    /// List the nodes registered in etcd.
    Nodes,
    /// Cordon a node so the router stops sending it new traffic.
    Cordon { node_id: String },
    /// Remove a previously set cordon.
    Uncordon { node_id: String },
    /// Ask the node's agent to drain and exit.
    Drain { node_id: String },
}

/// The etcd key of node `node_id` under `prefix` (its registration or
/// its cordon, by prefix).
pub fn node_key(prefix: &str, node_id: &str) -> (k: String)
    ensures
        k@ == prefix@ + node_id@,
{
    let mut v: Vec<char> = Vec::new();
    push_str(&mut v, prefix);
    push_str(&mut v, node_id);
    string_from_chars(v.as_slice())
}

/// Node role as registered.
#[derive(Debug, Clone, Copy, PartialEq, Eq, Structural)]
pub enum NodeRole {
    Unspecified,
    Prefill,
    Decode,
    Both,
}

/// The role column of the node table.
pub open spec fn spec_role_label(r: NodeRole) -> Seq<char> {
    match r {
        NodeRole::Prefill => "prefill"@,
        NodeRole::Decode => "decode"@,
        NodeRole::Both => "both"@,
        NodeRole::Unspecified => "?"@,
    }
}

pub fn role_label(r: NodeRole) -> (s: &'static str)
    ensures
        s@ == spec_role_label(r),
{
    match r {
        NodeRole::Prefill => "prefill",
        NodeRole::Decode => "decode",
        NodeRole::Both => "both",
        NodeRole::Unspecified => "?",
    }
}

/// What the node table reads of a node registration (its power draw is
/// printed as registered).
#[derive(Debug, Clone)]
pub struct NodeRow {
    pub node_id: String,
    pub address: String,
    pub role: NodeRole,
    pub model: Option<String>,
    pub queue_depth: u32,
    pub ready: bool,
    pub version: String,
}

/// The text columns of one node line.
#[derive(Debug, Clone)]
pub struct NodeLine {
    /// The node id, marked ` *` when cordoned.
    pub label: String,
    pub address: String,
    pub role: String,
    /// The served model, or `-`.
    pub model: String,
    /// `yes` or `no`.
    pub ready: String,
    pub queue_depth: u32,
    /// The agent's version, or `-`.
    pub version: String,
}

/// Ids of the cordoned nodes: the cordon keys under `prefix`, with the
/// prefix removed; other keys are ignored.
pub open spec fn cordoned_ids(keys: Seq<Seq<char>>, prefix: Seq<char>) -> Set<Seq<char>> {
    Set::new(|id: Seq<char>| exists|k: int| 0 <= k < keys.len() && #[trigger] keys[k] == prefix + id)
}

/// The line of the node table for `row`.
pub fn node_line(row: &NodeRow, cordon_keys: &[String], prefix: &str) -> (l: NodeLine)
    ensures
        l.label@ == if cordoned_ids(string_views(cordon_keys@), prefix@).contains(row.node_id@) {
            row.node_id@ + " *"@
        } else {
            row.node_id@
        },
        l.address@ == row.address@,
        l.role@ == spec_role_label(row.role),
        l.model@ == match row.model {
            Some(m) => m@,
            None => "-"@,
        },
        l.ready@ == if row.ready { "yes"@ } else { "no"@ },
        l.queue_depth == row.queue_depth,
        l.version@ == if row.version@.len() == 0 { "-"@ } else { row.version@ },
{
    let mut target: Vec<char> = Vec::new();
    push_str(&mut target, prefix);
    push_str(&mut target, row.node_id.as_str());
    let target_s = string_from_chars(target.as_slice());
    let mut cordoned = false;
    let mut i: usize = 0;
    while i < cordon_keys.len()
        invariant
            i <= cordon_keys@.len(),
            target_s@ == prefix@ + row.node_id@,
            cordoned <==> exists|k: int| 0 <= k < i && string_views(cordon_keys@)[k] == prefix@ + row.node_id@,
        decreases cordon_keys@.len() - i,
    {
        assert(string_views(cordon_keys@)[i as int] == cordon_keys@[i as int]@);
        if str_eq(cordon_keys[i].as_str(), target_s.as_str()) {
            cordoned = true;
        }
        i = i + 1;
    }
    proof {
        let ks = string_views(cordon_keys@);
        if cordoned_ids(ks, prefix@).contains(row.node_id@) {
            let k = choose|k: int| 0 <= k < ks.len() && #[trigger] ks[k] == prefix@ + row.node_id@;
        }
        if cordoned {
            let k = choose|k: int| 0 <= k < cordon_keys@.len() && string_views(cordon_keys@)[k] == prefix@ + row.node_id@;
            assert(ks[k] == prefix@ + row.node_id@);
        }
    }
    let mut label: Vec<char> = Vec::new();
    push_str(&mut label, row.node_id.as_str());
    if cordoned {
        push_str(&mut label, " *");
    }
    let model = match &row.model {
        Some(m) => m.clone(),
        None => String::from_str("-"),
    };
    let version = if row.version.as_str().is_empty() {
        String::from_str("-")
    } else {
        row.version.clone()
    };
    NodeLine {
        label: string_from_chars(label.as_slice()),
        address: row.address.clone(),
        role: role_label(row.role).to_string(),
        model,
        ready: if row.ready { String::from_str("yes") } else { String::from_str("no") },
        queue_depth: row.queue_depth,
        version,
    }
}

/// The address the drain call goes to, read from the node's registration
/// (`None` when no registration was found under its key).
pub fn registered_address(node_id: &str, row: Option<&NodeRow>) -> (r: Result<String, Error>)
    ensures
        row is None ==> (r matches Err(Error::NotFound(m)) && m@ == "node "@ + node_id@
            + " not registered in etcd"@),
        row matches Some(n) ==> if n.address@.len() == 0 {
            r matches Err(Error::Internal(m)) && m@ == "node "@ + node_id@
                + " has no address in its etcd entry"@
        } else {
            r matches Ok(a) && a@ == n.address@
        },
{
    match row {
        None => {
            let mut v: Vec<char> = Vec::new();
            push_str(&mut v, "node ");
            push_str(&mut v, node_id);
            push_str(&mut v, " not registered in etcd");
            Err(Error::NotFound(string_from_chars(v.as_slice())))
        },
        Some(n) => {
            if n.address.as_str().is_empty() {
                let mut v: Vec<char> = Vec::new();
                push_str(&mut v, "node ");
                push_str(&mut v, node_id);
                push_str(&mut v, " has no address in its etcd entry");
                Err(Error::Internal(string_from_chars(v.as_slice())))
            } else {
                Ok(n.address.clone())
            }
        },
    }
}

} // verus!
