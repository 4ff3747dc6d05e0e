//! Transaction identifiers and pledge records.

use vstd::prelude::*;
use crate::fixed_bytes::{
    append_bytes, array_from_prefix, bytes_before, bytes_equal, random_bytes, slice_from,
    spec_bytes_before,
};
use crate::uint256::UInt256;

verus! {

/// The number of bytes of a transaction identifier.
pub const TXID_LENGTH: usize = 32;

/// A fixed 32-byte identifier. It names a transaction, and also the
/// partition that a pledge is bound to.
#[derive(Clone, Copy, Debug, Default, PartialEq, Eq, PartialOrd, Ord, Hash)]
pub struct TxId(pub [u8; 32]);

impl View for TxId {
    type V = Seq<u8>;

    open spec fn view(&self) -> Seq<u8> {
        self.0@
    }
}

impl TxId {
    /// The identifier made of the given bytes.
    pub fn new(bytes: [u8; 32]) -> (r: Self)
        ensures
            r.0 == bytes,
            r@ == bytes@,
    {
        TxId(bytes)
    }

    /// The bytes of the identifier.
    pub fn as_slice(&self) -> (r: &[u8])
        ensures
            r@ == self@,
    {
        self.0.as_slice()
    }

    /// An identifier of random bytes, for tests. Nothing is returned where
    /// the system's random number generator fails.
    pub fn random() -> (r: Option<Self>) {
        match random_bytes::<32>() {
            Some(bytes) => Some(TxId::new(bytes)),
            None => None,
        }
    }

    /// Whether two identifiers hold the same bytes.
    pub fn is_equal(&self, other: &TxId) -> (r: bool)
        ensures
            r == (self@ == other@),
            r == (*self == *other),
    {
        bytes_equal(&self.0, &other.0)
    }

    /// Whether this identifier comes before `other`, byte by byte.
    pub fn is_before(&self, other: &TxId) -> (r: bool)
        ensures
            r == spec_bytes_before(self@, other@),
    {
        bytes_before(&self.0, &other.0)
    }

    /// Writes the identifier in its compact form: its 32 bytes as they are,
    /// with no length in front. Returns the number of bytes written.
    pub fn to_compact(self, buf: &mut Vec<u8>) -> (written: usize)
        ensures
            written == TXID_LENGTH,
            final(buf)@ == old(buf)@ + self@,
    {
        append_bytes(buf, self.0.as_slice());
        TXID_LENGTH
    }

    /// Reads an identifier in its compact form from the front of `buf`, and
    /// returns it with the bytes that follow it. The form has a fixed width,
    /// so `len` is not consulted.
    pub fn from_compact(buf: &[u8], len: usize) -> (r: (Self, &[u8]))
        requires
            buf@.len() >= TXID_LENGTH,
        ensures
            r.0@ == buf@.take(TXID_LENGTH as int),
            r.1@ == buf@.skip(TXID_LENGTH as int),
    {
        let bytes: [u8; 32] = array_from_prefix(buf);
        let rest = slice_from(buf, TXID_LENGTH);
        (TxId(bytes), rest)
    }
}

impl From<[u8; 32]> for TxId {
    fn from(bytes: [u8; 32]) -> (r: Self) {
        TxId(bytes)
    }
}

impl vstd::std_specs::convert::FromSpecImpl<[u8; 32]> for TxId {
    open spec fn obeys_from_spec() -> bool {
        true
    }

    open spec fn from_spec(bytes: [u8; 32]) -> Self {
        TxId(bytes)
    }
}

/// A pledge: a quantity locked by one transaction against a destination.
#[derive(Clone, Copy, Debug, Default, PartialEq, Eq)]
pub struct Pledge {
    tx_id: TxId,
    quantity: UInt256,
    dest_hash: TxId,
    height: u64,
    tx_type: u8,
}

impl Pledge {
    /// The pledge of `quantity` that transaction `tx_id` made against
    /// `dest_hash` at `height`.
    pub fn new(tx_id: TxId, quantity: UInt256, dest_hash: TxId, height: u64, tx_type: u8) -> (r:
        Self)
        ensures
            r.tx_id() == tx_id,
            r.quantity() == quantity,
            r.dest_hash() == dest_hash,
            r.height() == height,
            r.tx_type() == tx_type,
    {
        Pledge { tx_id, quantity, dest_hash, height, tx_type }
    }

    /// The transaction that made the pledge.
    #[verifier::when_used_as_spec(spec_tx_id)]
    pub fn tx_id(&self) -> (r: TxId)
        ensures
            r == self.spec_tx_id(),
    {
        self.tx_id
    }

    /// The transaction that made the pledge.
    pub closed spec fn spec_tx_id(&self) -> TxId {
        self.tx_id
    }

    /// The pledged quantity.
    #[verifier::when_used_as_spec(spec_quantity)]
    pub fn quantity(&self) -> (r: UInt256)
        ensures
            r == self.spec_quantity(),
    {
        self.quantity
    }

    /// The pledged quantity.
    pub closed spec fn spec_quantity(&self) -> UInt256 {
        self.quantity
    }

    /// What the pledge is made against.
    #[verifier::when_used_as_spec(spec_dest_hash)]
    pub fn dest_hash(&self) -> (r: TxId)
        ensures
            r == self.spec_dest_hash(),
    {
        self.dest_hash
    }

    /// What the pledge is made against.
    pub closed spec fn spec_dest_hash(&self) -> TxId {
        self.dest_hash
    }

    /// The height at which the pledge was made.
    #[verifier::when_used_as_spec(spec_height)]
    pub fn height(&self) -> (r: u64)
        ensures
            r == self.spec_height(),
    {
        self.height
    }

    /// The height at which the pledge was made.
    pub closed spec fn spec_height(&self) -> u64 {
        self.height
    }

    /// The kind of the pledge's transaction.
    #[verifier::when_used_as_spec(spec_tx_type)]
    pub fn tx_type(&self) -> (r: u8)
        ensures
            r == self.spec_tx_type(),
    {
        self.tx_type
    }

    /// The kind of the pledge's transaction.
    pub closed spec fn spec_tx_type(&self) -> u8 {
        self.tx_type
    }
}

} // verus!
