//! Stakes and pledge commitments, and the life cycle of their status.

use vstd::prelude::*;
use crate::pledge::TxId;
use crate::uint256::UInt256;

verus! {

/// The status of a stake or of a pledge commitment.
///
/// A commitment starts `Pending`, is promoted to `Active`, and ends either
/// `Inactive` (unpledged, with a refund) or `Slashed` (forfeited). `Inactive`
/// and `Slashed` are terminal.
#[derive(Clone, Copy, Debug, PartialEq, Eq, Structural, Hash)]
pub enum CommitmentStatus {
    Pending,
    Active,
    Inactive,
    Slashed,
}

impl CommitmentStatus {
    /// Whether no transition leaves this status.
    pub open spec fn is_terminal(self) -> bool {
        self == CommitmentStatus::Inactive || self == CommitmentStatus::Slashed
    }

    /// Whether the life cycle has a step from `self` to `target`.
    pub open spec fn can_become(self, target: CommitmentStatus) -> bool {
        ||| (self == CommitmentStatus::Pending && target == CommitmentStatus::Active)
        ||| (self == CommitmentStatus::Active && target == CommitmentStatus::Inactive)
        ||| (self == CommitmentStatus::Active && target == CommitmentStatus::Slashed)
    }

    /// The status after a request to move to `target`: `target` where the
    /// life cycle has that step, and `self` unchanged otherwise.
    pub open spec fn spec_transition(self, target: CommitmentStatus) -> CommitmentStatus {
        if self.can_become(target) {
            target
        } else {
            self
        }
    }

    /// Whether the status is `Active`.
    pub fn is_active(&self) -> (r: bool)
        ensures
            r == (*self == CommitmentStatus::Active),
    {
        *self == CommitmentStatus::Active
    }

    /// Moves to `target` where the life cycle has that step. Every other
    /// request leaves the status as it is: this is no error, so that a
    /// transition applied a second time changes nothing.
    pub fn transition(self, target: CommitmentStatus) -> (r: CommitmentStatus)
        ensures
            r == self.spec_transition(target),
    {
        match (self, target) {
            (CommitmentStatus::Pending, CommitmentStatus::Active) => target,
            (CommitmentStatus::Active, CommitmentStatus::Inactive) => target,
            (CommitmentStatus::Active, CommitmentStatus::Slashed) => target,
            _ => self,
        }
    }

    /// A transition requested twice has the effect of one request.
    pub proof fn lemma_transition_idempotent(self, target: CommitmentStatus)
        ensures
            self.spec_transition(target).spec_transition(target) == self.spec_transition(target),
    {
    }

    /// No transition leaves a terminal status.
    pub proof fn lemma_terminal_is_final(self, target: CommitmentStatus)
        requires
            self.is_terminal(),
        ensures
            self.spec_transition(target) == self,
    {
    }
}

/// A stake: balance locked against an address's mining eligibility.
#[derive(Clone, Copy, Debug, PartialEq, Eq, Hash)]
pub struct Stake {
    /// The transaction that created the stake.
    pub tx_id: TxId,
    /// The locked balance.
    pub quantity: UInt256,
    /// The height at which the stake was made.
    pub height: u64,
    pub status: CommitmentStatus,
}

/// What a `Stake` holds, as plain values.
pub struct StakeView {
    pub tx_id: Seq<u8>,
    pub quantity: nat,
    pub height: u64,
    pub status: CommitmentStatus,
}

impl View for Stake {
    type V = StakeView;

    open spec fn view(&self) -> StakeView {
        StakeView {
            tx_id: self.tx_id@,
            quantity: self.quantity@,
            height: self.height,
            status: self.status,
        }
    }
}

impl StakeView {
    /// The stake with its status moved towards `target`.
    pub open spec fn with_transition(self, target: CommitmentStatus) -> StakeView {
        StakeView { status: self.status.spec_transition(target), ..self }
    }
}

impl Stake {
    /// Moves the status towards `target`, as `CommitmentStatus::transition`
    /// does.
    pub fn update_status(&mut self, target: CommitmentStatus)
        ensures
            final(self)@ == old(self)@.with_transition(target),
    {
        self.status = self.status.transition(target);
    }
}

/// A pledge commitment: balance locked against a partition.
#[derive(Clone, Copy, Debug, PartialEq, Eq, Hash)]
pub struct Commitment {
    /// The transaction that created the commitment.
    pub tx_id: TxId,
    /// The locked balance.
    pub quantity: UInt256,
    /// The partition that the commitment is bound to.
    pub destination: TxId,
    /// The height at which the pledge was made.
    pub height: u64,
    pub status: CommitmentStatus,
}

/// What a `Commitment` holds, as plain values.
pub struct CommitmentView {
    pub tx_id: Seq<u8>,
    pub quantity: nat,
    pub destination: Seq<u8>,
    pub height: u64,
    pub status: CommitmentStatus,
}

impl View for Commitment {
    type V = CommitmentView;

    open spec fn view(&self) -> CommitmentView {
        CommitmentView {
            tx_id: self.tx_id@,
            quantity: self.quantity@,
            destination: self.destination@,
            height: self.height,
            status: self.status,
        }
    }
}

impl CommitmentView {
    /// The commitment with its status moved towards `target`.
    pub open spec fn with_transition(self, target: CommitmentStatus) -> CommitmentView {
        CommitmentView { status: self.status.spec_transition(target), ..self }
    }

    /// Whether the commitment is `Active` and bound to `destination`.
    pub open spec fn is_active_for(self, destination: Seq<u8>) -> bool {
        self.status == CommitmentStatus::Active && self.destination == destination
    }
}

impl Commitment {
    /// Moves the status towards `target`, as `CommitmentStatus::transition`
    /// does.
    pub fn update_status(&mut self, target: CommitmentStatus)
        ensures
            final(self)@ == old(self)@.with_transition(target),
    {
        self.status = self.status.transition(target);
    }
}

/// The views of a sequence of commitments.
pub open spec fn commitment_views(s: Seq<Commitment>) -> Seq<CommitmentView> {
    Seq::new(s.len(), |i: int| s[i]@)
}

/// The last shadow transaction that was applied to an account with success.
#[derive(Clone, Copy, Debug, PartialEq, Eq, Hash)]
pub enum LastTx {
    TxId(TxId),
}

impl View for LastTx {
    type V = Seq<u8>;

    open spec fn view(&self) -> Seq<u8> {
        match self {
            LastTx::TxId(id) => id@,
        }
    }
}

} // verus!
