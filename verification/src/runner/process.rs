//! Commands to run as child processes.
use vstd::prelude::*;

verus! {

/// A program, its arguments and an optional working directory.
#[derive(Debug)]
pub struct CommandSpec {
    pub program: String,
    pub args: Vec<String>,
    pub cwd: Option<String>,
}

/// The texts of a list of strings, in order.
pub open spec fn arg_texts(v: Seq<String>) -> Seq<Seq<char>> {
    v.map_values(|a: String| a@)
}

} // verus!
