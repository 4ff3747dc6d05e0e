//! Where a block's shadow transactions come from.

use vstd::prelude::*;
use crate::shadow::Shadows;

verus! {

/// A block, named by its hash or by its number.
#[derive(Clone, Copy, Debug, PartialEq, Eq)]
pub enum BlockHashOrNumber {
    Hash([u8; 32]),
    Number(u64),
}

/// A source of the shadow transactions of blocks. It is read before a block
/// is executed.
///
/// Nothing is assumed of an implementation.
pub trait ShadowsProvider {
    /// What the source reports when it cannot answer.
    type Error;

    /// The shadow transactions of the block `id`, in the order in which
    /// they apply, or nothing where the block has none.
    fn shadows_by_block(&self, id: BlockHashOrNumber) -> Result<Option<Shadows>, Self::Error>;
}

} // verus!
