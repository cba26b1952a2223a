//! Revealing a note's file in the platform file manager.
use crate::text::{extend_str, string_from_chars};
use vstd::prelude::*;

verus! {

/// The single raw argument Windows Explorer takes to open a folder with
/// `path` selected: `/select,"<path>"` (the quotes keep a path with
/// spaces one token).
pub fn explorer_select_arg(path: &str) -> (arg: String)
    ensures
        arg@ == "/select,\""@ + path@ + "\""@,
{
    let mut out: Vec<char> = Vec::new();
    extend_str(&mut out, "/select,\"");
    extend_str(&mut out, path);
    extend_str(&mut out, "\"");
    string_from_chars(&out)
}

} // verus!
