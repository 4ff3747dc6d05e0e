//! The command that generates test vectors.

use vstd::prelude::*;
use crate::irys_ext::{exit_after, NodeExitReason};

verus! {

/// What the command can be asked to do.
#[derive(Debug)]
pub enum Subcommands {
    /// Generate test vectors for the named tables. Names are case
    /// sensitive. Without a name, vectors are generated for all tables.
    Tables { names: Vec<String> },
}

/// The command that generates test vectors for different data types.
#[derive(Debug)]
pub struct Command {
    command: Subcommands,
}

impl Command {
    /// The command that is to do `command`.
    pub fn new(command: Subcommands) -> (r: Self)
        ensures
            r.subcommand() == command,
    {
        Command { command }
    }

    /// What the command is asked to do.
    pub closed spec fn subcommand(self) -> Subcommands {
        self.command
    }

    /// What the command is asked to do.
    pub fn into_subcommand(self) -> (r: Subcommands)
        ensures
            r == self.subcommand(),
    {
        self.command
    }

    /// What the command is asked to do.
    pub fn as_subcommand(&self) -> (r: &Subcommands)
        ensures
            *r == self.subcommand(),
    {
        &self.command
    }

    /// Ends the command once its vectors are generated: the node exits
    /// normally, unless generating them failed.
    pub fn execute<E>(&self, generated: Result<(), E>) -> (r: Result<NodeExitReason, E>)
        ensures
            match generated {
                Ok(_) => r == Ok::<NodeExitReason, E>(NodeExitReason::Normal),
                Err(e) => r == Err::<NodeExitReason, E>(e),
            },
    {
        exit_after(generated)
    }
}

} // verus!
