//! Why a node stops, and what it is handed to start again.

use vstd::prelude::*;

verus! {

/// What a node is handed to start again.
#[derive(Debug, PartialEq, Eq)]
pub enum ReloadPayload {
    /// Start again with this chain configuration, given in its serialised
    /// form: this is how a new genesis configuration reaches the node.
    ReloadConfig(Vec<u8>),
}

/// Why a node stops. The reason is handed up to whoever started the node.
#[derive(Debug, PartialEq, Eq)]
pub enum NodeExitReason {
    /// The node is done.
    Normal,
    /// The node is to start again with the payload.
    Reload(ReloadPayload),
}

impl NodeExitReason {
    /// Whether the node is to start again.
    pub fn is_reload(&self) -> (r: bool)
        ensures
            r == (*self is Reload),
    {
        match self {
            NodeExitReason::Normal => false,
            NodeExitReason::Reload(_) => true,
        }
    }
}

/// What a command that has run makes of the outcome of its work: a normal
/// exit where the work was done, and the work's error otherwise.
pub fn exit_after<E>(outcome: Result<(), E>) -> (r: Result<NodeExitReason, E>)
    ensures
        match outcome {
            Ok(_) => r == Ok::<NodeExitReason, E>(NodeExitReason::Normal),
            Err(e) => r == Err::<NodeExitReason, E>(e),
        },
{
    match outcome {
        Ok(_) => Ok(NodeExitReason::Normal),
        Err(e) => Err(e),
    }
}

} // verus!
