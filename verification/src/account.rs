//! The extended account record and the small operations on it.

use vstd::prelude::*;
use crate::commitment::{
    commitment_views, Commitment, CommitmentStatus, CommitmentView, LastTx, Stake, StakeView,
};
use crate::pledge::TxId;
use crate::uint256::{uint256_limit, UInt256};

verus! {

/// The hash of empty code: what an account without code records.
pub fn empty_code_hash() -> (r: [u8; 32])
    ensures
        r@ == spec_empty_code_hash(),
{
    let r: [u8; 32] = [
        0xc5, 0xd2, 0x46, 0x01, 0x86, 0xf7, 0x23, 0x3c, 0x92, 0x7e, 0x7d, 0xb2, 0xdc, 0xc7, 0x03,
        0xc0, 0xe5, 0x00, 0xb6, 0x53, 0xca, 0x82, 0x27, 0x3b, 0x7b, 0xfa, 0xd8, 0x04, 0x5d, 0x85,
        0xa4, 0x70,
    ];
    assert(r@ =~= spec_empty_code_hash());
    r
}

/// The hash of empty code.
pub open spec fn spec_empty_code_hash() -> Seq<u8> {
    seq![
        0xc5u8, 0xd2u8, 0x46u8, 0x01u8, 0x86u8, 0xf7u8, 0x23u8, 0x3cu8, 0x92u8, 0x7eu8, 0x7du8,
        0xb2u8, 0xdcu8, 0xc7u8, 0x03u8, 0xc0u8, 0xe5u8, 0x00u8, 0xb6u8, 0x53u8, 0xcau8, 0x82u8,
        0x27u8, 0x3bu8, 0x7bu8, 0xfau8, 0xd8u8, 0x04u8, 0x5du8, 0x85u8, 0xa4u8, 0x70u8,
    ]
}

/// The ledger's record of one address.
#[derive(Debug, PartialEq, Eq)]
pub struct Account {
    pub balance: UInt256,
    pub nonce: u64,
    /// The hash of the account's code.
    pub code_hash: [u8; 32],
    /// The account's code, where it is loaded.
    pub code: Option<Vec<u8>>,
    /// The stake of the address, if it has one.
    pub stake: Option<Stake>,
    /// The pledge commitments of the address, if it ever made one.
    pub commitments: Option<Vec<Commitment>>,
    /// The last shadow transaction that succeeded on this account.
    pub last_tx: Option<LastTx>,
    pub mining_permission: Option<bool>,
}

/// What an `Account` holds, as plain values.
pub struct AccountView {
    pub balance: nat,
    pub nonce: u64,
    pub code_hash: Seq<u8>,
    pub code: Option<Seq<u8>>,
    pub stake: Option<StakeView>,
    pub commitments: Option<Seq<CommitmentView>>,
    pub last_tx: Option<Seq<u8>>,
    pub mining_permission: Option<bool>,
}

impl View for Account {
    type V = AccountView;

    open spec fn view(&self) -> AccountView {
        AccountView {
            balance: self.balance@,
            nonce: self.nonce,
            code_hash: self.code_hash@,
            code: match self.code {
                Some(c) => Some(c@),
                None => None,
            },
            stake: match self.stake {
                Some(s) => Some(s@),
                None => None,
            },
            commitments: match self.commitments {
                Some(c) => Some(commitment_views(c@)),
                None => None,
            },
            last_tx: match self.last_tx {
                Some(l) => Some(l@),
                None => None,
            },
            mining_permission: self.mining_permission,
        }
    }
}

/// The index of the first commitment bound to `destination`, whatever its
/// status.
pub open spec fn first_commitment_for(s: Seq<CommitmentView>, destination: Seq<u8>) -> Option<int>
    decreases s.len(),
{
    if s.len() == 0 {
        None
    } else {
        match first_commitment_for(s.drop_last(), destination) {
            Some(i) => Some(i),
            None => if s.last().destination == destination {
                Some(s.len() - 1)
            } else {
                None
            },
        }
    }
}

/// The index of the first `Active` commitment bound to `destination`.
pub open spec fn first_active_commitment_for(
    s: Seq<CommitmentView>,
    destination: Seq<u8>,
) -> Option<int>
    decreases s.len(),
{
    if s.len() == 0 {
        None
    } else {
        match first_active_commitment_for(s.drop_last(), destination) {
            Some(i) => Some(i),
            None => if s.last().is_active_for(destination) {
                Some(s.len() - 1)
            } else {
                None
            },
        }
    }
}

/// `first_commitment_for` finds the least index whose commitment is bound to
/// the destination, and finds none only where there is none.
pub proof fn lemma_first_commitment_for(s: Seq<CommitmentView>, destination: Seq<u8>)
    ensures
        match first_commitment_for(s, destination) {
            Some(i) => {
                &&& 0 <= i < s.len()
                &&& s[i].destination == destination
                &&& forall|j: int| 0 <= j < i ==> s[j].destination != destination
            },
            None => forall|j: int| 0 <= j < s.len() ==> s[j].destination != destination,
        },
    decreases s.len(),
{
    if s.len() > 0 {
        let s0 = s.drop_last();
        lemma_first_commitment_for(s0, destination);
        assert(forall|j: int| 0 <= j < s0.len() ==> s0[j] == s[j]);
    }
}

/// `first_active_commitment_for` finds the least index whose commitment is
/// `Active` and bound to the destination, and finds none only where there is
/// none.
pub proof fn lemma_first_active_commitment_for(s: Seq<CommitmentView>, destination: Seq<u8>)
    ensures
        match first_active_commitment_for(s, destination) {
            Some(i) => {
                &&& 0 <= i < s.len()
                &&& s[i].is_active_for(destination)
                &&& forall|j: int| 0 <= j < i ==> !s[j].is_active_for(destination)
            },
            None => forall|j: int| 0 <= j < s.len() ==> !s[j].is_active_for(destination),
        },
    decreases s.len(),
{
    if s.len() > 0 {
        let s0 = s.drop_last();
        lemma_first_active_commitment_for(s0, destination);
        assert(forall|j: int| 0 <= j < s0.len() ==> s0[j] == s[j]);
    }
}

impl AccountView {
    /// Whether no two commitments of the account are `Active` for the same
    /// destination.
    pub open spec fn well_formed(self) -> bool {
        self.commitments matches Some(cs) ==> forall|i: int, j: int|
            0 <= i < j < cs.len() && cs[i].status == CommitmentStatus::Active && cs[j].status
                == CommitmentStatus::Active ==> cs[i].destination != cs[j].destination
    }

    /// The account with `amount` added to its balance.
    pub open spec fn credited(self, amount: nat) -> AccountView {
        AccountView { balance: self.balance + amount, ..self }
    }

    /// The account with `amount` taken from its balance.
    pub open spec fn debited(self, amount: nat) -> AccountView
        recommends
            self.balance >= amount,
    {
        AccountView { balance: (self.balance - amount) as nat, ..self }
    }
}

impl Account {
    /// The record of an address that the ledger has never seen: no balance,
    /// no code, no stake and no commitments.
    pub fn empty() -> (r: Self)
        ensures
            r@ == Self::spec_empty(),
    {
        Account {
            balance: UInt256::zero(),
            nonce: 0,
            code_hash: empty_code_hash(),
            code: None,
            stake: None,
            commitments: None,
            last_tx: None,
            mining_permission: None,
        }
    }

    /// The view of `Account::empty()`.
    pub open spec fn spec_empty() -> AccountView {
        AccountView {
            balance: 0,
            nonce: 0,
            code_hash: spec_empty_code_hash(),
            code: None,
            stake: None,
            commitments: None,
            last_tx: None,
            mining_permission: None,
        }
    }

    /// Adds `amount` to the balance, unless the sum does not fit in 256 bits:
    /// then the account stays as it is and `false` is returned.
    pub fn checked_increment_balance(&mut self, amount: &UInt256) -> (done: bool)
        ensures
            done == (old(self)@.balance + amount@ < uint256_limit()),
            done ==> final(self)@ == old(self)@.credited(amount@),
            !done ==> final(self)@ == old(self)@,
    {
        match self.balance.checked_add(amount) {
            Some(sum) => {
                self.balance = sum;
                true
            },
            None => false,
        }
    }

    /// Takes `amount` from the balance, unless the balance is smaller: then
    /// the account stays as it is and `false` is returned.
    pub fn checked_decrement_balance(&mut self, amount: &UInt256) -> (done: bool)
        ensures
            done == (old(self)@.balance >= amount@),
            done ==> final(self)@ == old(self)@.debited(amount@),
            !done ==> final(self)@ == old(self)@,
    {
        match self.balance.checked_sub(amount) {
            Some(difference) => {
                self.balance = difference;
                true
            },
            None => false,
        }
    }

    /// Whether the account has a stake, whatever its status.
    pub fn has_stake(&self) -> (r: bool)
        ensures
            r == self@.stake.is_some(),
    {
        self.stake.is_some()
    }

    /// The index of the first commitment bound to `destination`, whatever
    /// its status.
    pub fn find_commitment(&self, destination: &TxId) -> (r: Option<usize>)
        ensures
            match self@.commitments {
                Some(cs) => match first_commitment_for(cs, destination@) {
                    Some(i) => r matches Some(k) && k == i,
                    None => r.is_none(),
                },
                None => r.is_none(),
            },
    {
        match &self.commitments {
            None => None,
            Some(cs) => {
                let mut i: usize = 0;
                while i < cs.len()
                    invariant
                        i <= cs@.len(),
                        self.commitments == Some(*cs),
                        forall|j: int|
                            0 <= j < i ==> (#[trigger] cs@[j])@.destination != destination@,
                    decreases cs@.len() - i,
                {
                    if cs[i].destination.is_equal(destination) {
                        proof {
                            let views = commitment_views(cs@);
                            lemma_first_commitment_for(views, destination@);
                            assert(views[i as int] == cs@[i as int]@);
                            if let Some(f) = first_commitment_for(views, destination@) {
                                if f < i {
                                    assert(views[f] == cs@[f]@);
                                }
                            }
                        }
                        return Some(i);
                    }
                    i = i + 1;
                }
                proof {
                    let views = commitment_views(cs@);
                    lemma_first_commitment_for(views, destination@);
                    assert(forall|j: int| 0 <= j < views.len() ==> views[j] == cs@[j]@);
                }
                None
            },
        }
    }

    /// The index of the first `Active` commitment bound to `destination`.
    pub fn find_active_commitment(&self, destination: &TxId) -> (r: Option<usize>)
        ensures
            match self@.commitments {
                Some(cs) => match first_active_commitment_for(cs, destination@) {
                    Some(i) => r matches Some(k) && k == i,
                    None => r.is_none(),
                },
                None => r.is_none(),
            },
    {
        match &self.commitments {
            None => None,
            Some(cs) => {
                let mut i: usize = 0;
                while i < cs.len()
                    invariant
                        i <= cs@.len(),
                        self.commitments == Some(*cs),
                        forall|j: int|
                            0 <= j < i ==> !(#[trigger] cs@[j])@.is_active_for(destination@),
                    decreases cs@.len() - i,
                {
                    if cs[i].status.is_active() && cs[i].destination.is_equal(destination) {
                        proof {
                            let views = commitment_views(cs@);
                            lemma_first_active_commitment_for(views, destination@);
                            assert(views[i as int] == cs@[i as int]@);
                            if let Some(f) = first_active_commitment_for(views, destination@) {
                                if f < i {
                                    assert(views[f] == cs@[f]@);
                                }
                            }
                        }
                        return Some(i);
                    }
                    i = i + 1;
                }
                proof {
                    let views = commitment_views(cs@);
                    lemma_first_active_commitment_for(views, destination@);
                    assert(forall|j: int| 0 <= j < views.len() ==> views[j] == cs@[j]@);
                }
                None
            },
        }
    }
}

/// Fields to write over an account's own. A field that the diff does not hold
/// is left as it is. For `stake`, `commitments` and `last_tx` the value to
/// write may itself be absent, which clears the field.
#[derive(Debug, PartialEq, Eq)]
pub struct AccountDiff {
    pub balance: Option<UInt256>,
    pub nonce: Option<u64>,
    pub stake: Option<Option<Stake>>,
    pub commitments: Option<Option<Vec<Commitment>>>,
    pub last_tx: Option<Option<LastTx>>,
    pub mining_permission: Option<bool>,
}

/// What an `AccountDiff` holds, as plain values.
pub struct AccountDiffView {
    pub balance: Option<nat>,
    pub nonce: Option<u64>,
    pub stake: Option<Option<StakeView>>,
    pub commitments: Option<Option<Seq<CommitmentView>>>,
    pub last_tx: Option<Option<Seq<u8>>>,
    pub mining_permission: Option<bool>,
}

impl View for AccountDiff {
    type V = AccountDiffView;

    open spec fn view(&self) -> AccountDiffView {
        AccountDiffView {
            balance: match self.balance {
                Some(b) => Some(b@),
                None => None,
            },
            nonce: self.nonce,
            stake: match self.stake {
                Some(Some(s)) => Some(Some(s@)),
                Some(None) => Some(None),
                None => None,
            },
            commitments: match self.commitments {
                Some(Some(c)) => Some(Some(commitment_views(c@))),
                Some(None) => Some(None),
                None => None,
            },
            last_tx: match self.last_tx {
                Some(Some(l)) => Some(Some(l@)),
                Some(None) => Some(None),
                None => None,
            },
            mining_permission: self.mining_permission,
        }
    }
}

impl Clone for AccountDiff {
    fn clone(&self) -> (r: Self)
        ensures
            r@ == self@,
    {
        AccountDiff {
            balance: self.balance,
            nonce: self.nonce,
            stake: self.stake,
            commitments: match &self.commitments {
                Some(Some(c)) => Some(Some(clone_commitments(c))),
                Some(None) => Some(None),
                None => None,
            },
            last_tx: self.last_tx,
            mining_permission: self.mining_permission,
        }
    }
}

impl AccountView {
    /// The account with the fields of `diff` written over its own. The code
    /// and its hash are never touched.
    pub open spec fn with_diff(self, diff: AccountDiffView) -> AccountView {
        AccountView {
            balance: match diff.balance {
                Some(b) => b,
                None => self.balance,
            },
            nonce: match diff.nonce {
                Some(n) => n,
                None => self.nonce,
            },
            code_hash: self.code_hash,
            code: self.code,
            stake: match diff.stake {
                Some(s) => s,
                None => self.stake,
            },
            commitments: match diff.commitments {
                Some(c) => c,
                None => self.commitments,
            },
            last_tx: match diff.last_tx {
                Some(l) => l,
                None => self.last_tx,
            },
            mining_permission: match diff.mining_permission {
                Some(m) => Some(m),
                None => self.mining_permission,
            },
        }
    }
}

impl Account {
    /// Writes the fields that `diff` holds over the account's own, with no
    /// check of any kind.
    pub fn apply_diff(&mut self, diff: &AccountDiff)
        ensures
            final(self)@ == old(self)@.with_diff(diff@),
    {
        if let Some(b) = diff.balance {
            self.balance = b;
        }
        if let Some(n) = diff.nonce {
            self.nonce = n;
        }
        if let Some(s) = diff.stake {
            self.stake = s;
        }
        match &diff.commitments {
            Some(Some(c)) => {
                self.commitments = Some(clone_commitments(c));
            },
            Some(None) => {
                self.commitments = None;
            },
            None => {},
        }
        if let Some(l) = diff.last_tx {
            self.last_tx = l;
        }
        if let Some(m) = diff.mining_permission {
            self.mining_permission = Some(m);
        }
    }
}

/// A copy of a byte vector.
pub fn clone_bytes(v: &Vec<u8>) -> (r: Vec<u8>)
    ensures
        r@ == v@,
{
    let mut r: Vec<u8> = Vec::new();
    let mut i: usize = 0;
    while i < v.len()
        invariant
            i <= v@.len(),
            r@ == v@.take(i as int),
        decreases v@.len() - i,
    {
        r.push(v[i]);
        proof {
            assert(v@.take(i + 1) =~= v@.take(i as int).push(v@[i as int]));
        }
        i = i + 1;
    }
    assert(v@.take(v@.len() as int) =~= v@);
    r
}

/// A copy of a vector of commitments.
pub fn clone_commitments(v: &Vec<Commitment>) -> (r: Vec<Commitment>)
    ensures
        r@ == v@,
{
    let mut r: Vec<Commitment> = Vec::new();
    let mut i: usize = 0;
    while i < v.len()
        invariant
            i <= v@.len(),
            r@ == v@.take(i as int),
        decreases v@.len() - i,
    {
        r.push(v[i]);
        proof {
            assert(v@.take(i + 1) =~= v@.take(i as int).push(v@[i as int]));
        }
        i = i + 1;
    }
    assert(v@.take(v@.len() as int) =~= v@);
    r
}

impl Clone for Account {
    fn clone(&self) -> (r: Self)
        ensures
            r@ == self@,
    {
        Account {
            balance: self.balance,
            nonce: self.nonce,
            code_hash: self.code_hash,
            code: match &self.code {
                Some(c) => Some(clone_bytes(c)),
                None => None,
            },
            stake: self.stake,
            commitments: match &self.commitments {
                Some(c) => Some(clone_commitments(c)),
                None => None,
            },
            last_tx: self.last_tx,
            mining_permission: self.mining_permission,
        }
    }
}

} // verus!
