//! `cgn-ctl pki`: a development CA and leaf certificate.
use vstd::prelude::*;

verus! {

/// `cgn-ctl pki` subcommands.
#[derive(Debug, Clone)]
pub enum Cmd {
    /// Create a CA and a leaf certificate for one host under `out`.
    Bootstrap { out: String, common_name: String, sans: Vec<String> },
}

/// Subject alternative names of the leaf: as given, `localhost` when
/// none are.
pub fn bootstrap_sans(sans: Vec<String>) -> (r: Vec<String>)
    ensures
        sans@.len() > 0 ==> r == sans,
        sans@.len() == 0 ==> r@.len() == 1 && r@[0]@ == "localhost"@,
{
    if sans.len() == 0 {
        let mut v: Vec<String> = Vec::new();
        v.push(String::from_str("localhost"));
        v
    } else {
        sans
    }
}

} // verus!
