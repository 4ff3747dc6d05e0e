//! Shadow transactions and their wire encoding.

use vstd::prelude::*;
use crate::account::{AccountDiff, AccountDiffView};
use crate::address::Address;
use crate::pledge::TxId;
use crate::uint256::UInt256;

verus! {

/// Moves `amount` from the transaction's account to `to`.
#[derive(Clone, Copy, Debug, PartialEq, Eq, Hash)]
pub struct TransferShadow {
    pub to: Address,
    pub amount: UInt256,
}

/// What a `TransferShadow` holds, as plain values.
pub struct TransferShadowView {
    pub to: Seq<u8>,
    pub amount: nat,
}

impl View for TransferShadow {
    type V = TransferShadowView;

    open spec fn view(&self) -> TransferShadowView {
        TransferShadowView { to: self.to@, amount: self.amount@ }
    }
}

/// Takes a flat `fee` from the transaction's account.
#[derive(Clone, Copy, Debug, PartialEq, Eq, Hash)]
pub struct DataShadow {
    pub fee: UInt256,
}

/// What a `DataShadow` holds, as plain values.
pub struct DataShadowView {
    pub fee: nat,
}

impl View for DataShadow {
    type V = DataShadowView;

    open spec fn view(&self) -> DataShadowView {
        DataShadowView { fee: self.fee@ }
    }
}

/// Locks `value` as the stake of the transaction's account.
#[derive(Clone, Copy, Debug, PartialEq, Eq, Hash)]
pub struct MiningAddressPledgeShadow {
    pub value: UInt256,
}

/// What a `MiningAddressPledgeShadow` holds, as plain values.
pub struct MiningAddressPledgeShadowView {
    pub value: nat,
}

impl View for MiningAddressPledgeShadow {
    type V = MiningAddressPledgeShadowView;

    open spec fn view(&self) -> MiningAddressPledgeShadowView {
        MiningAddressPledgeShadowView { value: self.value@ }
    }
}

/// Locks `quantity` in a commitment bound to the partition `part_hash`.
#[derive(Clone, Copy, Debug, PartialEq, Eq, Hash)]
pub struct PartitionPledgeShadow {
    pub quantity: UInt256,
    pub part_hash: TxId,
    pub height: u64,
}

/// What a `PartitionPledgeShadow` holds, as plain values.
pub struct PartitionPledgeShadowView {
    pub quantity: nat,
    pub part_hash: Seq<u8>,
    pub height: u64,
}

impl View for PartitionPledgeShadow {
    type V = PartitionPledgeShadowView;

    open spec fn view(&self) -> PartitionPledgeShadowView {
        PartitionPledgeShadowView {
            quantity: self.quantity@,
            part_hash: self.part_hash@,
            height: self.height,
        }
    }
}

/// Ends the active commitment bound to the partition `part_hash`, with a
/// refund.
#[derive(Clone, Copy, Debug, PartialEq, Eq, Hash)]
pub struct PartitionUnPledgeShadow {
    pub part_hash: TxId,
}

/// What a `PartitionUnPledgeShadow` holds, as plain values.
pub struct PartitionUnPledgeShadowView {
    pub part_hash: Seq<u8>,
}

impl View for PartitionUnPledgeShadow {
    type V = PartitionUnPledgeShadowView;

    open spec fn view(&self) -> PartitionUnPledgeShadowView {
        PartitionUnPledgeShadowView { part_hash: self.part_hash@ }
    }
}

/// Ends the active stake and every active commitment, with refunds.
#[derive(Clone, Copy, Debug, PartialEq, Eq, Hash)]
pub struct UnpledgeAllShadow {}

/// Marks the active stake and every active commitment as slashed.
#[derive(Clone, Copy, Debug, PartialEq, Eq, Hash)]
pub struct SlashShadow {
    pub slashed_addr: Address,
}

/// What a `SlashShadow` holds, as plain values.
pub struct SlashShadowView {
    pub slashed_addr: Seq<u8>,
}

impl View for SlashShadow {
    type V = SlashShadowView;

    open spec fn view(&self) -> SlashShadowView {
        SlashShadowView { slashed_addr: self.slashed_addr@ }
    }
}

/// The type byte that tells the operations apart on the wire.
#[derive(Clone, Copy, Debug, PartialEq, Eq, Structural, Hash)]
pub enum ShadowTxTypeId {
    Null,
    Transfer,
    Data,
    MiningAddressPledge,
    PartitionPledge,
    PartitionUnPledge,
    UnpledgeAll,
    Slash,
}

/// Why a byte is no type byte.
#[derive(Clone, Copy, Debug, PartialEq, Eq, Structural, Hash)]
pub enum ShadowTxTypeIdDecodeError {
    /// The byte names no operation.
    UnknownShadowTypeId(u8),
}

impl ShadowTxTypeId {
    /// The byte that stands for the type on the wire.
    pub open spec fn spec_to_u8(self) -> u8 {
        match self {
            ShadowTxTypeId::Null => 0,
            ShadowTxTypeId::Transfer => 1,
            ShadowTxTypeId::Data => 2,
            ShadowTxTypeId::MiningAddressPledge => 3,
            ShadowTxTypeId::PartitionPledge => 4,
            ShadowTxTypeId::PartitionUnPledge => 5,
            ShadowTxTypeId::UnpledgeAll => 6,
            ShadowTxTypeId::Slash => 7,
        }
    }

    /// The type that a byte stands for: the bytes 0 to 7 name the eight
    /// types, and every other byte is unknown.
    pub open spec fn spec_from_u8(id: u8) -> Result<ShadowTxTypeId, ShadowTxTypeIdDecodeError> {
        if id == 0 {
            Ok(ShadowTxTypeId::Null)
        } else if id == 1 {
            Ok(ShadowTxTypeId::Transfer)
        } else if id == 2 {
            Ok(ShadowTxTypeId::Data)
        } else if id == 3 {
            Ok(ShadowTxTypeId::MiningAddressPledge)
        } else if id == 4 {
            Ok(ShadowTxTypeId::PartitionPledge)
        } else if id == 5 {
            Ok(ShadowTxTypeId::PartitionUnPledge)
        } else if id == 6 {
            Ok(ShadowTxTypeId::UnpledgeAll)
        } else if id == 7 {
            Ok(ShadowTxTypeId::Slash)
        } else {
            Err(ShadowTxTypeIdDecodeError::UnknownShadowTypeId(id))
        }
    }

    /// The byte that stands for the type on the wire.
    pub fn to_u8(self) -> (r: u8)
        ensures
            r == self.spec_to_u8(),
            r <= 7,
    {
        match self {
            ShadowTxTypeId::Null => 0,
            ShadowTxTypeId::Transfer => 1,
            ShadowTxTypeId::Data => 2,
            ShadowTxTypeId::MiningAddressPledge => 3,
            ShadowTxTypeId::PartitionPledge => 4,
            ShadowTxTypeId::PartitionUnPledge => 5,
            ShadowTxTypeId::UnpledgeAll => 6,
            ShadowTxTypeId::Slash => 7,
        }
    }

    /// A type is read back from its byte, and a byte that names a type is
    /// the byte of that type.
    pub proof fn lemma_type_byte_round_trip(self, id: u8)
        ensures
            Self::spec_from_u8(self.spec_to_u8()) == Ok::<
                ShadowTxTypeId,
                ShadowTxTypeIdDecodeError,
            >(self),
            Self::spec_from_u8(id) matches Ok(t) ==> t.spec_to_u8() == id,
            Self::spec_from_u8(id) is Ok <==> id <= 7,
    {
    }
}

impl TryFrom<u8> for ShadowTxTypeId {
    type Error = ShadowTxTypeIdDecodeError;

    fn try_from(id: u8) -> (r: Result<Self, Self::Error>) {
        match id {
            0 => Ok(ShadowTxTypeId::Null),
            1 => Ok(ShadowTxTypeId::Transfer),
            2 => Ok(ShadowTxTypeId::Data),
            3 => Ok(ShadowTxTypeId::MiningAddressPledge),
            4 => Ok(ShadowTxTypeId::PartitionPledge),
            5 => Ok(ShadowTxTypeId::PartitionUnPledge),
            6 => Ok(ShadowTxTypeId::UnpledgeAll),
            7 => Ok(ShadowTxTypeId::Slash),
            _ => Err(ShadowTxTypeIdDecodeError::UnknownShadowTypeId(id)),
        }
    }
}

impl vstd::std_specs::convert::TryFromSpecImpl<u8> for ShadowTxTypeId {
    open spec fn obeys_try_from_spec() -> bool {
        true
    }

    open spec fn try_from_spec(id: u8) -> Result<Self, Self::Error> {
        Self::spec_from_u8(id)
    }
}

/// The operation of a shadow transaction.
#[derive(Debug, PartialEq, Eq)]
pub enum ShadowTxType {
    /// Does nothing. A healthy caller never sends it.
    Null,
    Transfer(TransferShadow),
    Data(DataShadow),
    MiningAddressPledge(MiningAddressPledgeShadow),
    PartitionPledge(PartitionPledgeShadow),
    PartitionUnPledge(PartitionUnPledgeShadow),
    UnpledgeAll(UnpledgeAllShadow),
    Slash(SlashShadow),
    /// Writes fields of the account directly, with no check. This operation
    /// has no wire form: only the process itself can make one.
    Diff(AccountDiff),
}

/// What a `ShadowTxType` holds, as plain values.
pub enum ShadowTxTypeView {
    Null,
    Transfer(TransferShadowView),
    Data(DataShadowView),
    MiningAddressPledge(MiningAddressPledgeShadowView),
    PartitionPledge(PartitionPledgeShadowView),
    PartitionUnPledge(PartitionUnPledgeShadowView),
    UnpledgeAll,
    Slash(SlashShadowView),
    Diff(AccountDiffView),
}

impl View for ShadowTxType {
    type V = ShadowTxTypeView;

    open spec fn view(&self) -> ShadowTxTypeView {
        match self {
            ShadowTxType::Null => ShadowTxTypeView::Null,
            ShadowTxType::Transfer(t) => ShadowTxTypeView::Transfer(t@),
            ShadowTxType::Data(d) => ShadowTxTypeView::Data(d@),
            ShadowTxType::MiningAddressPledge(m) => ShadowTxTypeView::MiningAddressPledge(m@),
            ShadowTxType::PartitionPledge(p) => ShadowTxTypeView::PartitionPledge(p@),
            ShadowTxType::PartitionUnPledge(p) => ShadowTxTypeView::PartitionUnPledge(p@),
            ShadowTxType::UnpledgeAll(_) => ShadowTxTypeView::UnpledgeAll,
            ShadowTxType::Slash(s) => ShadowTxTypeView::Slash(s@),
            ShadowTxType::Diff(d) => ShadowTxTypeView::Diff(d@),
        }
    }
}

impl Clone for ShadowTxType {
    fn clone(&self) -> (r: Self)
        ensures
            r@ == self@,
    {
        match self {
            ShadowTxType::Null => ShadowTxType::Null,
            ShadowTxType::Transfer(t) => ShadowTxType::Transfer(*t),
            ShadowTxType::Data(d) => ShadowTxType::Data(*d),
            ShadowTxType::MiningAddressPledge(m) => ShadowTxType::MiningAddressPledge(*m),
            ShadowTxType::PartitionPledge(p) => ShadowTxType::PartitionPledge(*p),
            ShadowTxType::PartitionUnPledge(p) => ShadowTxType::PartitionUnPledge(*p),
            ShadowTxType::UnpledgeAll(u) => ShadowTxType::UnpledgeAll(*u),
            ShadowTxType::Slash(s) => ShadowTxType::Slash(*s),
            ShadowTxType::Diff(d) => ShadowTxType::Diff(d.clone()),
        }
    }
}

impl Default for ShadowTxType {
    fn default() -> (r: Self)
        ensures
            r == ShadowTxType::Null,
    {
        ShadowTxType::Null
    }
}

/// A shadow transaction: an operation on the account at `address`.
#[derive(Debug, PartialEq, Eq)]
pub struct ShadowTx {
    pub tx_id: TxId,
    /// The account that the operation is evaluated against.
    pub address: Address,
    pub tx: ShadowTxType,
}

/// What a `ShadowTx` holds, as plain values.
pub struct ShadowTxView {
    pub tx_id: Seq<u8>,
    pub address: Seq<u8>,
    pub tx: ShadowTxTypeView,
}

impl View for ShadowTx {
    type V = ShadowTxView;

    open spec fn view(&self) -> ShadowTxView {
        ShadowTxView { tx_id: self.tx_id@, address: self.address@, tx: self.tx@ }
    }
}

impl Clone for ShadowTx {
    fn clone(&self) -> (r: Self)
        ensures
            r@ == self@,
    {
        ShadowTx { tx_id: self.tx_id, address: self.address, tx: self.tx.clone() }
    }
}

/// The views of a sequence of shadow transactions.
pub open spec fn shadow_views(s: Seq<ShadowTx>) -> Seq<ShadowTxView> {
    Seq::new(s.len(), |i: int| s[i]@)
}

/// The memory that `count` shadow transactions take, or the largest number
/// where that does not fit.
pub open spec fn spec_memory_size(count: nat) -> usize {
    if count * vstd::layout::size_of::<ShadowTx>() <= usize::MAX {
        (count * vstd::layout::size_of::<ShadowTx>()) as usize
    } else {
        usize::MAX
    }
}

/// The memory that `count` shadow transactions take, or the largest number
/// where that does not fit.
fn memory_size(count: usize) -> (r: usize)
    ensures
        r == spec_memory_size(count as nat),
{
    match count.checked_mul(core::mem::size_of::<ShadowTx>()) {
        Some(size) => size,
        None => usize::MAX,
    }
}

/// Calls `Vec::capacity`: the number of elements that the vector has room
/// for without allocating again. The contract claims only what the
/// documentation of `Vec` guarantees of every vector: the capacity is no
/// less than the length.
#[verifier::external_body]
fn vec_capacity(v: &Vec<ShadowTx>) -> (r: usize)
    ensures
        r >= v@.len(),
{
    v.capacity()
}

/// The shadow transactions of one block, in the order in which they apply.
#[derive(Debug, PartialEq, Eq)]
pub struct Shadows(Vec<ShadowTx>);

impl View for Shadows {
    type V = Seq<ShadowTxView>;

    closed spec fn view(&self) -> Seq<ShadowTxView> {
        shadow_views(self.0@)
    }
}

impl Shadows {
    /// The given shadow transactions, in their order.
    pub fn new(shadows: Vec<ShadowTx>) -> (r: Self)
        ensures
            r@ == shadow_views(shadows@),
    {
        Shadows(shadows)
    }

    /// How many shadow transactions there are.
    pub fn len(&self) -> (r: usize)
        ensures
            r == self@.len(),
    {
        self.0.len()
    }

    /// Whether there is no shadow transaction.
    pub fn is_empty(&self) -> (r: bool)
        ensures
            r == (self@.len() == 0),
    {
        self.0.len() == 0
    }

    /// The shadow transaction at index `i`.
    pub fn get(&self, i: usize) -> (r: &ShadowTx)
        requires
            i < self@.len(),
        ensures
            r@ == self@[i as int],
    {
        &self.0[i]
    }

    /// An iterator over the shadow transactions, in their order.
    pub fn iter(&self) -> (r: core::slice::Iter<'_, ShadowTx>)
        ensures
            shadow_views(vstd::std_specs::slice::into_iter_elts(r)) == self@,
    {
        let slice = self.0.as_slice();
        let r = slice.iter();
        proof {
            vstd::std_specs::slice::axiom_spec_slice_iter(slice);
            assert(vstd::std_specs::slice::into_iter_elts(r) =~= self.0@);
        }
        r
    }

    /// Puts a shadow transaction behind the others.
    pub fn push(&mut self, shadow: ShadowTx)
        ensures
            final(self)@ == old(self)@.push(shadow@),
    {
        self.0.push(shadow);
        proof {
            assert(shadow_views(self.0@) =~= shadow_views(old(self).0@).push(shadow@));
        }
    }

    /// An estimate of the memory that the shadow transactions take: their
    /// number times the size of one, or the largest number where that does
    /// not fit.
    pub fn size(&self) -> (r: usize)
        ensures
            r == spec_memory_size(self@.len()),
    {
        memory_size(self.0.len())
    }

    /// An estimate of the memory that is set aside for the shadow
    /// transactions: the number that the list has room for, which is no
    /// less than the number that it holds, times the size of one.
    pub fn total_size(&self) -> (r: usize)
        ensures
            exists|capacity: nat|
                capacity >= self@.len() && r == #[trigger] spec_memory_size(capacity),
    {
        let capacity = vec_capacity(&self.0);
        memory_size(capacity)
    }

    /// The shadow transactions as a slice.
    pub fn as_slice(&self) -> (r: &[ShadowTx])
        ensures
            shadow_views(r@) == self@,
    {
        self.0.as_slice()
    }

    /// The shadow transactions, as the vector that holds them.
    pub fn into_inner(self) -> (r: Vec<ShadowTx>)
        ensures
            shadow_views(r@) == self@,
    {
        self.0
    }
}

impl Clone for Shadows {
    fn clone(&self) -> (r: Self)
        ensures
            r@ == self@,
    {
        let mut copy: Vec<ShadowTx> = Vec::new();
        let mut i: usize = 0;
        while i < self.0.len()
            invariant
                i <= self.0@.len(),
                copy@.len() == i,
                forall|j: int| 0 <= j < i ==> (#[trigger] copy@[j])@ == self.0@[j]@,
            decreases self.0@.len() - i,
        {
            copy.push(self.0[i].clone());
            i = i + 1;
        }
        assert(shadow_views(copy@) =~= shadow_views(self.0@));
        Shadows(copy)
    }
}

impl Default for Shadows {
    fn default() -> (r: Self)
        ensures
            r@.len() == 0,
    {
        Shadows(Vec::new())
    }
}

impl From<Vec<ShadowTx>> for Shadows {
    fn from(shadows: Vec<ShadowTx>) -> (r: Self) {
        Shadows(shadows)
    }
}

impl vstd::std_specs::convert::FromSpecImpl<Vec<ShadowTx>> for Shadows {
    open spec fn obeys_from_spec() -> bool {
        true
    }

    closed spec fn from_spec(shadows: Vec<ShadowTx>) -> Self {
        Shadows(shadows)
    }
}

} // verus!
