//! How a command of the operating system ended, as plain values.

use vstd::prelude::*;

verus! {

/// What a command left behind when it ended.
#[derive(Debug, Clone, PartialEq, Eq)]
pub struct CommandOutput {
    /// Whether the command ended with success.
    pub success: bool,
    /// The exit code, where the command gave one.
    pub code: Option<i32>,
    /// The bytes written to standard output.
    pub stdout: Vec<u8>,
}

/// How the attempt to run a command ended.
#[derive(Debug, Clone, PartialEq, Eq)]
pub enum Invocation {
    /// The command could not be started.
    Failed,
    /// The command ran and ended.
    Finished(CommandOutput),
}

/// The texts held by `args`, in their order.
pub open spec fn texts(args: Seq<String>) -> Seq<Seq<char>> {
    args.map_values(|s: String| s@)
}

} // verus!
