//! Shadow transactions: privileged ledger operations that a block applies
//! beside its ordinary transactions.
//!
//! The crate holds the wire encoding of shadow transactions, the extended
//! account record (balance, stake, pledge commitments, last transaction), the
//! rules by which one shadow transaction changes an account, and the driver
//! that applies a block's shadow transactions under checkpoints.

pub mod account;
pub mod address;
pub mod balance_increments;
pub mod big_endian;
pub mod commitment;
pub mod fixed_bytes;
pub mod irys_ext;
pub mod journaled_state;
pub mod operations;
pub mod pledge;
pub mod receipt;
pub mod recover;
pub mod rlp;
pub mod shadow;
pub mod shadows_provider;
pub mod state_change;
pub mod test_vectors;
pub mod uint256;
pub mod wire;
