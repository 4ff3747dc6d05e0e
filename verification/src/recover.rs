//! The command that recovers a node.

use vstd::prelude::*;
use crate::irys_ext::{exit_after, NodeExitReason};

verus! {

/// What the command can be asked to do.
#[derive(Clone, Copy, Debug, PartialEq, Eq, Structural)]
pub enum Subcommands {
    /// Recover the node by deleting dangling storage tries.
    StorageTries,
}

/// The command that recovers a node.
#[derive(Clone, Copy, Debug, PartialEq, Eq, Structural)]
pub struct Command {
    command: Subcommands,
}

impl Command {
    /// The command that is to do `command`.
    pub fn new(command: Subcommands) -> (r: Self)
        ensures
            r.subcommand() == command,
    {
        Command { command }
    }

    /// What the command is asked to do.
    pub closed spec fn subcommand(self) -> Subcommands {
        self.command
    }

    /// What the command is asked to do.
    pub fn into_subcommand(self) -> (r: Subcommands)
        ensures
            r == self.subcommand(),
    {
        self.command
    }

    /// What the command is asked to do.
    pub fn as_subcommand(&self) -> (r: &Subcommands)
        ensures
            *r == self.subcommand(),
    {
        &self.command
    }

    /// Ends the command once the recovery has run: the node exits
    /// normally, unless the recovery failed.
    pub fn execute<E>(&self, recovered: Result<(), E>) -> (r: Result<NodeExitReason, E>)
        ensures
            match recovered {
                Ok(_) => r == Ok::<NodeExitReason, E>(NodeExitReason::Normal),
                Err(e) => r == Err::<NodeExitReason, E>(e),
            },
    {
        exit_after(recovered)
    }
}

} // verus!
