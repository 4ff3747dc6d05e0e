//! Account addresses.

use vstd::prelude::*;
use crate::fixed_bytes::{bytes_equal, random_bytes};

verus! {

/// The number of bytes of an address.
pub const ADDRESS_LENGTH: usize = 20;

/// The 20-byte address of an account.
#[derive(Clone, Copy, Debug, Default, PartialEq, Eq, PartialOrd, Ord, Hash)]
pub struct Address(pub [u8; 20]);

impl View for Address {
    type V = Seq<u8>;

    open spec fn view(&self) -> Seq<u8> {
        self.0@
    }
}

impl Address {
    /// The address made of the given bytes.
    pub fn new(bytes: [u8; 20]) -> (r: Self)
        ensures
            r.0 == bytes,
            r@ == bytes@,
    {
        Address(bytes)
    }

    /// The bytes of the address.
    pub fn as_slice(&self) -> (r: &[u8])
        ensures
            r@ == self@,
    {
        self.0.as_slice()
    }

    /// An address of random bytes, for tests. Nothing is returned where the
    /// system's random number generator fails.
    pub fn random() -> (r: Option<Self>) {
        match random_bytes::<20>() {
            Some(bytes) => Some(Address::new(bytes)),
            None => None,
        }
    }

    /// Whether two addresses hold the same bytes.
    pub fn is_equal(&self, other: &Address) -> (r: bool)
        ensures
            r == (self@ == other@),
            r == (*self == *other),
    {
        bytes_equal(&self.0, &other.0)
    }
}

impl From<[u8; 20]> for Address {
    fn from(bytes: [u8; 20]) -> (r: Self) {
        Address(bytes)
    }
}

impl vstd::std_specs::convert::FromSpecImpl<[u8; 20]> for Address {
    open spec fn obeys_from_spec() -> bool {
        true
    }

    open spec fn from_spec(bytes: [u8; 20]) -> Self {
        Address(bytes)
    }
}

} // verus!
