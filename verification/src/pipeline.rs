use vstd::prelude::*;
use crate::cmd::CmdInner;

verus! {

/// A pipeline or chain of commands.
#[derive(Debug)]
pub enum Pipeline {
    /// A single command.
    Single(Box<CmdInner>),
    /// Pipe stdout of left into stdin of right (`|`).
    Pipe(Box<Pipeline>, Box<Pipeline>),
    /// Run right only if left succeeds (`&&`).
    And(Box<Pipeline>, Box<Pipeline>),
    /// Run right only if left fails (`||`).
    Or(Box<Pipeline>, Box<Pipeline>),
    /// Run right after left regardless of exit code (`;`).
    Then(Box<Pipeline>, Box<Pipeline>),
}

} // verus!
