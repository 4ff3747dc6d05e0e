//! What each operation of a shadow transaction does to an account.
//!
//! Every operation is a function of the account and of the operation's
//! fields. It either succeeds and changes the account, or fails softly with
//! a result that says why and leaves the account as it was.

use vstd::prelude::*;
use crate::account::{
    first_active_commitment_for, first_commitment_for, Account, AccountView,
};
use crate::commitment::{
    commitment_views, Commitment, CommitmentStatus, CommitmentView, LastTx, Stake, StakeView,
};
use crate::pledge::TxId;
use crate::receipt::ShadowResult;
use crate::shadow::{
    PartitionPledgeShadow, PartitionPledgeShadowView, ShadowTxType, ShadowTxTypeView,
};
use crate::uint256::{uint256_limit, UInt256};

verus! {

/// `Data`: takes the fee from the balance, or fails `OutOfFunds` where the
/// balance is smaller.
pub open spec fn spec_data(a: AccountView, fee: nat) -> (AccountView, ShadowResult) {
    if a.balance < fee {
        (a, ShadowResult::OutOfFunds)
    } else {
        (a.debited(fee), ShadowResult::Success)
    }
}

/// The stake that `MiningAddressPledge` creates: pending, and recorded at
/// height zero, since the operation carries no height.
pub open spec fn new_stake(tx_id: Seq<u8>, value: nat) -> StakeView {
    StakeView { tx_id, quantity: value, height: 0, status: CommitmentStatus::Pending }
}

/// `MiningAddressPledge`: fails `AlreadyStaked` where the account has a
/// stake, `OutOfFunds` where the balance is smaller than the value, and
/// otherwise takes the value from the balance and records a pending stake.
pub open spec fn spec_mining_address_pledge(a: AccountView, tx_id: Seq<u8>, value: nat) -> (
    AccountView,
    ShadowResult,
) {
    if a.stake is Some {
        (a, ShadowResult::AlreadyStaked)
    } else if a.balance < value {
        (a, ShadowResult::OutOfFunds)
    } else {
        (
            AccountView { stake: Some(new_stake(tx_id, value)), ..a.debited(value) },
            ShadowResult::Success,
        )
    }
}

/// The commitments of an account, empty where it has none.
pub open spec fn commitments_or_empty(a: AccountView) -> Seq<CommitmentView> {
    match a.commitments {
        Some(cs) => cs,
        None => Seq::empty(),
    }
}

/// The commitment that `PartitionPledge` creates: pending.
pub open spec fn new_commitment(tx_id: Seq<u8>, p: PartitionPledgeShadowView) -> CommitmentView {
    CommitmentView {
        tx_id,
        quantity: p.quantity,
        destination: p.part_hash,
        height: p.height,
        status: CommitmentStatus::Pending,
    }
}

/// `PartitionPledge`: fails `AlreadyPledged` where the account has a
/// commitment for the partition, whatever its status, `OutOfFunds` where the
/// balance is smaller than the quantity, and otherwise takes the quantity
/// from the balance and appends a pending commitment.
pub open spec fn spec_partition_pledge(
    a: AccountView,
    tx_id: Seq<u8>,
    p: PartitionPledgeShadowView,
) -> (AccountView, ShadowResult) {
    let existing = commitments_or_empty(a);
    if first_commitment_for(existing, p.part_hash) is Some {
        (a, ShadowResult::AlreadyPledged)
    } else if a.balance < p.quantity {
        (a, ShadowResult::OutOfFunds)
    } else {
        (
            AccountView {
                commitments: Some(existing.push(new_commitment(tx_id, p))),
                ..a.debited(p.quantity)
            },
            ShadowResult::Success,
        )
    }
}

/// `PartitionUnPledge`: fails `NoPledges` where the account has no
/// commitment at all, `NoMatchingPledge` where none is active for the
/// partition, `OverflowPayment` where the refund does not fit in the
/// balance, and otherwise refunds the first active commitment for the
/// partition and makes it inactive.
pub open spec fn spec_partition_unpledge(a: AccountView, part_hash: Seq<u8>) -> (
    AccountView,
    ShadowResult,
) {
    let cs = commitments_or_empty(a);
    if cs.len() == 0 {
        (a, ShadowResult::NoPledges)
    } else {
        match first_active_commitment_for(cs, part_hash) {
            None => (a, ShadowResult::NoMatchingPledge),
            Some(i) => if a.balance + cs[i].quantity >= uint256_limit() {
                (a, ShadowResult::OverflowPayment)
            } else {
                (
                    AccountView {
                        commitments: Some(
                            cs.update(i, cs[i].with_transition(CommitmentStatus::Inactive)),
                        ),
                        ..a.credited(cs[i].quantity)
                    },
                    ShadowResult::Success,
                )
            },
        }
    }
}

/// What an active stake locks; zero for any other stake and for none.
pub open spec fn stake_refund(stake: Option<StakeView>) -> nat {
    match stake {
        Some(s) => if s.status == CommitmentStatus::Active {
            s.quantity
        } else {
            0
        },
        None => 0,
    }
}

/// What the active commitments among `cs` lock together.
pub open spec fn commitments_refund(cs: Seq<CommitmentView>) -> nat
    decreases cs.len(),
{
    if cs.len() == 0 {
        0
    } else {
        commitments_refund(cs.drop_last()) + if cs.last().status == CommitmentStatus::Active {
            cs.last().quantity
        } else {
            0
        }
    }
}

/// Every commitment of `cs` with its status moved towards `target`.
pub open spec fn transitioned(cs: Seq<CommitmentView>, target: CommitmentStatus) -> Seq<
    CommitmentView,
> {
    Seq::new(cs.len(), |i: int| cs[i].with_transition(target))
}

/// The stake, if there is one, with its status moved towards `target`.
pub open spec fn transitioned_stake(stake: Option<StakeView>, target: CommitmentStatus) -> Option<
    StakeView,
> {
    match stake {
        Some(s) => Some(s.with_transition(target)),
        None => None,
    }
}

/// The account with its stake and all its commitments moved towards
/// `target`.
pub open spec fn with_all_transitioned(a: AccountView, target: CommitmentStatus) -> AccountView {
    AccountView {
        stake: transitioned_stake(a.stake, target),
        commitments: match a.commitments {
            Some(cs) => Some(transitioned(cs, target)),
            None => None,
        },
        ..a
    }
}

/// What `UnpledgeAll` refunds: what the active stake and the active
/// commitments lock together.
pub open spec fn total_refund(a: AccountView) -> nat {
    stake_refund(a.stake) + commitments_refund(commitments_or_empty(a))
}

/// `UnpledgeAll`: fails `OverflowPayment` where the refunds together do not
/// fit in the balance, and otherwise refunds the active stake and every
/// active commitment and makes them inactive. No refund is made alone.
pub open spec fn spec_unpledge_all(a: AccountView) -> (AccountView, ShadowResult) {
    if a.balance + total_refund(a) >= uint256_limit() {
        (a, ShadowResult::OverflowPayment)
    } else {
        (
            with_all_transitioned(a, CommitmentStatus::Inactive).credited(total_refund(a)),
            ShadowResult::Success,
        )
    }
}

/// `Slash`: marks the active stake and every active commitment as slashed.
/// The balance stays: what was locked is forfeited.
pub open spec fn spec_slash(a: AccountView) -> (AccountView, ShadowResult) {
    (with_all_transitioned(a, CommitmentStatus::Slashed), ShadowResult::Success)
}

/// The commitments refund no less when one more commitment is counted.
pub proof fn lemma_commitments_refund_monotonic(cs: Seq<CommitmentView>, i: int)
    requires
        0 <= i <= cs.len(),
    ensures
        commitments_refund(cs.take(i)) <= commitments_refund(cs),
    decreases cs.len() - i,
{
    if i == cs.len() {
        assert(cs.take(i) =~= cs);
    } else {
        lemma_commitments_refund_monotonic(cs, i + 1);
        assert(cs.take(i + 1).drop_last() =~= cs.take(i));
    }
}

/// Takes the fee from the balance, or fails `OutOfFunds`.
pub fn data(account: &mut Account, fee: &UInt256) -> (result: ShadowResult)
    ensures
        (final(account)@, result) == spec_data(old(account)@, fee@),
{
    if account.checked_decrement_balance(fee) {
        ShadowResult::Success
    } else {
        ShadowResult::OutOfFunds
    }
}

/// Locks `value` as the stake of the account.
pub fn mining_address_pledge(account: &mut Account, tx_id: &TxId, value: &UInt256) -> (result:
    ShadowResult)
    ensures
        (final(account)@, result) == spec_mining_address_pledge(old(account)@, tx_id@, value@),
{
    if account.has_stake() {
        return ShadowResult::AlreadyStaked;
    }
    if !account.checked_decrement_balance(value) {
        return ShadowResult::OutOfFunds;
    }
    account.stake = Some(
        Stake { tx_id: *tx_id, quantity: *value, height: 0, status: CommitmentStatus::Pending },
    );
    ShadowResult::Success
}

/// Locks a quantity in a new commitment bound to a partition.
pub fn partition_pledge(
    account: &mut Account,
    tx_id: &TxId,
    pledge: &PartitionPledgeShadow,
) -> (result: ShadowResult)
    ensures
        (final(account)@, result) == spec_partition_pledge(old(account)@, tx_id@, pledge@),
{
    if account.find_commitment(&pledge.part_hash).is_some() {
        return ShadowResult::AlreadyPledged;
    }
    if !account.checked_decrement_balance(&pledge.quantity) {
        return ShadowResult::OutOfFunds;
    }
    let commitment = Commitment {
        tx_id: *tx_id,
        quantity: pledge.quantity,
        destination: pledge.part_hash,
        height: pledge.height,
        status: CommitmentStatus::Pending,
    };
    let mut commitments = match account.commitments.take() {
        Some(cs) => cs,
        None => Vec::new(),
    };
    let ghost before = commitments@;
    commitments.push(commitment);
    proof {
        assert(commitment_views(commitments@) =~= commitment_views(before).push(commitment@));
        assert(commitment_views(Seq::<Commitment>::empty()) =~= Seq::<CommitmentView>::empty());
    }
    account.commitments = Some(commitments);
    ShadowResult::Success
}

/// Ends the first active commitment bound to a partition, with a refund.
pub fn partition_unpledge(account: &mut Account, part_hash: &TxId) -> (result: ShadowResult)
    ensures
        (final(account)@, result) == spec_partition_unpledge(old(account)@, part_hash@),
{
    let found = account.find_active_commitment(part_hash);
    let mut commitments = match account.commitments.take() {
        Some(cs) => cs,
        None => {
            return ShadowResult::NoPledges;
        },
    };
    proof {
        assert(commitment_views(commitments@).len() == commitments@.len());
    }
    if commitments.len() == 0 {
        account.commitments = Some(commitments);
        return ShadowResult::NoPledges;
    }
    let i = match found {
        Some(i) => i,
        None => {
            account.commitments = Some(commitments);
            return ShadowResult::NoMatchingPledge;
        },
    };
    proof {
        crate::account::lemma_first_active_commitment_for(
            commitment_views(commitments@),
            part_hash@,
        );
    }
    let mut commitment = commitments[i];
    if !account.checked_increment_balance(&commitment.quantity) {
        account.commitments = Some(commitments);
        return ShadowResult::OverflowPayment;
    }
    commitment.update_status(CommitmentStatus::Inactive);
    let ghost before = commitments@;
    commitments.set(i, commitment);
    proof {
        assert(commitment_views(commitments@) =~= commitment_views(before).update(
            i as int,
            commitment@,
        ));
    }
    account.commitments = Some(commitments);
    ShadowResult::Success
}

/// Moves the status of every commitment towards `target`.
pub fn transition_all(commitments: &mut Vec<Commitment>, target: CommitmentStatus)
    ensures
        commitment_views(final(commitments)@) == transitioned(
            commitment_views(old(commitments)@),
            target,
        ),
{
    let mut i: usize = 0;
    while i < commitments.len()
        invariant
            i <= commitments@.len(),
            commitments@.len() == old(commitments)@.len(),
            forall|j: int|
                0 <= j < i ==> (#[trigger] commitments@[j])@ == old(
                    commitments,
                )@[j]@.with_transition(target),
            forall|j: int|
                i <= j < commitments@.len() ==> (#[trigger] commitments@[j]) == old(
                    commitments,
                )@[j],
        decreases commitments@.len() - i,
    {
        let mut commitment = commitments[i];
        commitment.update_status(target);
        commitments.set(i, commitment);
        i = i + 1;
    }
    assert(commitment_views(commitments@) =~= transitioned(
        commitment_views(old(commitments)@),
        target,
    ));
}

/// Moves the status of the stake and of every commitment towards `target`.
fn transition_stake_and_commitments(account: &mut Account, target: CommitmentStatus)
    ensures
        final(account)@ == with_all_transitioned(old(account)@, target),
{
    if let Some(stake) = account.stake {
        let mut stake = stake;
        stake.update_status(target);
        account.stake = Some(stake);
    }
    if let Some(cs) = account.commitments.take() {
        let mut cs = cs;
        transition_all(&mut cs, target);
        account.commitments = Some(cs);
    }
}

/// Ends the active stake and every active commitment, with refunds, or
/// fails `OverflowPayment` and changes nothing.
pub fn unpledge_all(account: &mut Account) -> (result: ShadowResult)
    ensures
        (final(account)@, result) == spec_unpledge_all(old(account)@),
{
    let mut total = account.balance;
    if let Some(stake) = &account.stake {
        if stake.status.is_active() {
            match total.checked_add(&stake.quantity) {
                Some(sum) => {
                    total = sum;
                },
                None => {
                    return ShadowResult::OverflowPayment;
                },
            }
        }
    }
    if let Some(cs) = &account.commitments {
        let ghost views = commitment_views(cs@);
        let mut i: usize = 0;
        proof {
            assert(views.take(0) =~= Seq::<CommitmentView>::empty());
        }
        while i < cs.len()
            invariant
                i <= cs@.len(),
                views == commitment_views(cs@),
                total@ == account@.balance + stake_refund(account@.stake) + commitments_refund(
                    views.take(i as int),
                ),
                account.commitments == Some(*cs),
                *account == *old(account),
            decreases cs@.len() - i,
        {
            proof {
                lemma_commitments_refund_monotonic(views, i + 1);
                assert(views.take(i + 1).drop_last() =~= views.take(i as int));
                assert(views.take(i + 1).last() == cs@[i as int]@);
            }
            if cs[i].status.is_active() {
                match total.checked_add(&cs[i].quantity) {
                    Some(sum) => {
                        total = sum;
                    },
                    None => {
                        return ShadowResult::OverflowPayment;
                    },
                }
            }
            i = i + 1;
        }
        proof {
            assert(views.take(cs@.len() as int) =~= views);
        }
    }
    proof {
        total.lemma_below_limit();
    }
    transition_stake_and_commitments(account, CommitmentStatus::Inactive);
    account.balance = total;
    ShadowResult::Success
}

/// Marks the active stake and every active commitment as slashed.
pub fn slash(account: &mut Account) -> (result: ShadowResult)
    ensures
        (final(account)@, result) == spec_slash(old(account)@),
{
    transition_stake_and_commitments(account, CommitmentStatus::Slashed);
    ShadowResult::Success
}

/// The view of an account that may be absent.
pub open spec fn optional_account_view(account: Option<Account>) -> Option<AccountView> {
    match account {
        Some(a) => Some(a@),
        None => None,
    }
}

/// `Transfer` from `sender` to `receiver`, where an absent receiver stands
/// for the sender itself. Fails `OutOfFunds` where the sender's balance is
/// smaller than the amount, `OverflowPayment` where the receiver's balance
/// with the amount does not fit in 256 bits, and otherwise takes the amount
/// from the sender and gives it to the receiver.
pub open spec fn spec_transfer(sender: AccountView, receiver: Option<AccountView>, amount: nat) -> (
    AccountView,
    Option<AccountView>,
    ShadowResult,
) {
    let receiver_balance = match receiver {
        Some(r) => r.balance,
        None => sender.balance,
    };
    if sender.balance < amount {
        (sender, receiver, ShadowResult::OutOfFunds)
    } else if receiver_balance + amount >= uint256_limit() {
        (sender, receiver, ShadowResult::OverflowPayment)
    } else {
        match receiver {
            Some(r) => (sender.debited(amount), Some(r.credited(amount)), ShadowResult::Success),
            None => (sender, receiver, ShadowResult::Success),
        }
    }
}

/// Moves `amount` from `sender` to `receiver`, where an absent receiver
/// stands for the sender itself. Returns the receiver as it is afterwards.
pub fn transfer(sender: &mut Account, receiver: Option<Account>, amount: &UInt256) -> (r: (
    Option<Account>,
    ShadowResult,
))
    ensures
        (final(sender)@, optional_account_view(r.0), r.1) == spec_transfer(
            old(sender)@,
            optional_account_view(receiver),
            amount@,
        ),
{
    let debited = match sender.balance.checked_sub(amount) {
        Some(d) => d,
        None => {
            return (receiver, ShadowResult::OutOfFunds);
        },
    };
    match receiver {
        Some(to) => {
            let mut to = to;
            if !to.checked_increment_balance(amount) {
                return (Some(to), ShadowResult::OverflowPayment);
            }
            sender.balance = debited;
            (Some(to), ShadowResult::Success)
        },
        None => {
            if sender.balance.checked_add(amount).is_none() {
                return (None, ShadowResult::OverflowPayment);
            }
            (None, ShadowResult::Success)
        },
    }
}

/// The account with `tx_id` recorded as its last transaction.
pub open spec fn with_last_tx(a: AccountView, tx_id: Seq<u8>) -> AccountView {
    AccountView { last_tx: Some(tx_id), ..a }
}

/// What an operation leaves behind: the account it was evaluated against,
/// the receiving account where one was handed in, and the result.
pub struct Applied {
    pub primary: Account,
    pub receiver: Option<Account>,
    pub result: ShadowResult,
}

/// What an `Applied` holds, as plain values.
pub struct AppliedView {
    pub primary: AccountView,
    pub receiver: Option<AccountView>,
    pub result: ShadowResult,
}

impl View for Applied {
    type V = AppliedView;

    open spec fn view(&self) -> AppliedView {
        AppliedView {
            primary: self.primary@,
            receiver: optional_account_view(self.receiver),
            result: self.result,
        }
    }
}

/// What the operation alone does, before the last transaction is recorded.
pub open spec fn spec_operation_effect(
    primary: AccountView,
    receiver: Option<AccountView>,
    tx_id: Seq<u8>,
    op: ShadowTxTypeView,
) -> (AccountView, Option<AccountView>, ShadowResult) {
    match op {
        ShadowTxTypeView::Null => (primary, receiver, ShadowResult::Success),
        ShadowTxTypeView::Transfer(t) => spec_transfer(primary, receiver, t.amount),
        ShadowTxTypeView::Data(d) => {
            let (a, result) = spec_data(primary, d.fee);
            (a, receiver, result)
        },
        ShadowTxTypeView::MiningAddressPledge(m) => {
            let (a, result) = spec_mining_address_pledge(primary, tx_id, m.value);
            (a, receiver, result)
        },
        ShadowTxTypeView::PartitionPledge(p) => {
            let (a, result) = spec_partition_pledge(primary, tx_id, p);
            (a, receiver, result)
        },
        ShadowTxTypeView::PartitionUnPledge(p) => {
            let (a, result) = spec_partition_unpledge(primary, p.part_hash);
            (a, receiver, result)
        },
        ShadowTxTypeView::UnpledgeAll => {
            let (a, result) = spec_unpledge_all(primary);
            (a, receiver, result)
        },
        ShadowTxTypeView::Slash(_) => {
            let (a, result) = spec_slash(primary);
            (a, receiver, result)
        },
        ShadowTxTypeView::Diff(d) => (primary.with_diff(d), receiver, ShadowResult::Success),
    }
}

/// What one shadow transaction does to the account it is evaluated against
/// and, for a transfer to another address, to the receiving account.
///
/// An absent receiver stands for the primary account itself; only
/// `Transfer` reads it. On success the transaction is recorded as the
/// primary account's last one, except for `Diff`, which writes only the
/// fields that it holds.
pub open spec fn spec_apply_operation(
    primary: AccountView,
    receiver: Option<AccountView>,
    tx_id: Seq<u8>,
    op: ShadowTxTypeView,
) -> AppliedView {
    let (p, r, result) = spec_operation_effect(primary, receiver, tx_id, op);
    AppliedView {
        primary: if result == ShadowResult::Success && !(op is Diff) {
            with_last_tx(p, tx_id)
        } else {
            p
        },
        receiver: r,
        result,
    }
}

/// Applies one operation to the account it is evaluated against and, for a
/// transfer to another address, to the receiving account.
pub fn apply_operation(
    primary: Account,
    receiver: Option<Account>,
    tx_id: &TxId,
    op: &ShadowTxType,
) -> (applied: Applied)
    ensures
        applied@ == spec_apply_operation(
            primary@,
            optional_account_view(receiver),
            tx_id@,
            op@,
        ),
{
    let mut primary = primary;
    let mut receiver = receiver;
    let result = match op {
        ShadowTxType::Null => ShadowResult::Success,
        ShadowTxType::Transfer(t) => {
            let (to, result) = transfer(&mut primary, receiver, &t.amount);
            receiver = to;
            result
        },
        ShadowTxType::Data(d) => data(&mut primary, &d.fee),
        ShadowTxType::MiningAddressPledge(m) => mining_address_pledge(
            &mut primary,
            tx_id,
            &m.value,
        ),
        ShadowTxType::PartitionPledge(p) => partition_pledge(&mut primary, tx_id, p),
        ShadowTxType::PartitionUnPledge(p) => partition_unpledge(&mut primary, &p.part_hash),
        ShadowTxType::UnpledgeAll(_) => unpledge_all(&mut primary),
        ShadowTxType::Slash(_) => slash(&mut primary),
        ShadowTxType::Diff(d) => {
            primary.apply_diff(d);
            return Applied { primary, receiver, result: ShadowResult::Success };
        },
    };
    if result == ShadowResult::Success {
        primary.last_tx = Some(LastTx::TxId(*tx_id));
    }
    Applied { primary, receiver, result }
}

/// A transfer to another account neither makes nor destroys balance: the
/// two balances together are the same before and after, whatever the
/// result; and on a failure both accounts are as they were.
pub proof fn lemma_transfer_conserves_balance(
    sender: AccountView,
    receiver: AccountView,
    tx_id: Seq<u8>,
    amount: nat,
    to: Seq<u8>,
)
    ensures
        ({
            let op = ShadowTxTypeView::Transfer(crate::shadow::TransferShadowView { to, amount });
            let after = spec_apply_operation(sender, Some(receiver), tx_id, op);
            &&& after.receiver is Some
            &&& after.primary.balance + after.receiver->0.balance == sender.balance
                + receiver.balance
            &&& after.result != ShadowResult::Success ==> after.primary == sender
                && after.receiver == Some(receiver)
        }),
{
}

/// A transfer of an account to itself leaves its balance as it was,
/// whatever the result.
pub proof fn lemma_self_transfer_keeps_balance(
    account: AccountView,
    tx_id: Seq<u8>,
    amount: nat,
    to: Seq<u8>,
)
    ensures
        ({
            let op = ShadowTxTypeView::Transfer(crate::shadow::TransferShadowView { to, amount });
            let after = spec_apply_operation(account, None, tx_id, op);
            &&& after.receiver is None
            &&& after.primary.balance == account.balance
            &&& after.result != ShadowResult::Success ==> after.primary == account
        }),
{
}

/// An operation that does not succeed leaves both accounts as they were.
pub proof fn lemma_soft_failure_changes_nothing(
    primary: AccountView,
    receiver: Option<AccountView>,
    tx_id: Seq<u8>,
    op: ShadowTxTypeView,
)
    ensures
        ({
            let after = spec_apply_operation(primary, receiver, tx_id, op);
            after.result != ShadowResult::Success ==> after.primary == primary && after.receiver
                == receiver
        }),
{
}

/// What an operation takes from the balance of the account it is evaluated
/// against, where it succeeds.
pub open spec fn debit_of(op: ShadowTxTypeView) -> nat {
    match op {
        ShadowTxTypeView::Transfer(t) => t.amount,
        ShadowTxTypeView::Data(d) => d.fee,
        ShadowTxTypeView::MiningAddressPledge(m) => m.value,
        ShadowTxTypeView::PartitionPledge(p) => p.quantity,
        _ => 0,
    }
}

/// An operation that would take more than the balance does not succeed: it
/// fails `OutOfFunds`, unless it already failed `AlreadyStaked` or
/// `AlreadyPledged`, and the balance is as it was.
pub proof fn lemma_overdraft_is_rejected(
    primary: AccountView,
    receiver: Option<AccountView>,
    tx_id: Seq<u8>,
    op: ShadowTxTypeView,
)
    requires
        primary.balance < debit_of(op),
    ensures
        ({
            let after = spec_apply_operation(primary, receiver, tx_id, op);
            &&& after.result == ShadowResult::OutOfFunds || after.result
                == ShadowResult::AlreadyStaked || after.result == ShadowResult::AlreadyPledged
            &&& after.primary == primary
            &&& after.receiver == receiver
        }),
{
}

/// What an operation would give to a balance beyond the 256 bits that it
/// has: a transfer that its receiver cannot hold, a refund that the
/// account cannot hold. Such an operation fails `OverflowPayment`, unless
/// it fails earlier for another reason, and both accounts are as they were.
pub proof fn lemma_overflow_is_rejected(
    primary: AccountView,
    receiver: Option<AccountView>,
    tx_id: Seq<u8>,
    op: ShadowTxTypeView,
)
    requires
        match op {
            ShadowTxTypeView::Transfer(t) => primary.balance >= t.amount && match receiver {
                Some(r) => r.balance,
                None => primary.balance,
            } + t.amount >= uint256_limit(),
            ShadowTxTypeView::PartitionUnPledge(p) => {
                let cs = commitments_or_empty(primary);
                first_active_commitment_for(cs, p.part_hash) matches Some(i) && primary.balance
                    + cs[i].quantity >= uint256_limit()
            },
            ShadowTxTypeView::UnpledgeAll => primary.balance + total_refund(primary)
                >= uint256_limit(),
            _ => false,
        },
    ensures
        ({
            let after = spec_apply_operation(primary, receiver, tx_id, op);
            &&& after.result == ShadowResult::OverflowPayment
            &&& after.primary == primary
            &&& after.receiver == receiver
        }),
{
    match op {
        ShadowTxTypeView::PartitionUnPledge(p) => {
            crate::account::lemma_first_active_commitment_for(
                commitments_or_empty(primary),
                p.part_hash,
            );
        },
        _ => {},
    }
}

/// Whether every balance that an operation writes directly fits in 256
/// bits.
pub open spec fn writes_balance_in_range(op: ShadowTxTypeView) -> bool {
    op matches ShadowTxTypeView::Diff(d) ==> (d.balance matches Some(b) ==> b < uint256_limit())
}

/// Balances stay in range: an operation on accounts whose balances fit in
/// 256 bits leaves balances that fit in 256 bits, and none below zero.
pub proof fn lemma_balances_stay_in_range(
    primary: AccountView,
    receiver: Option<AccountView>,
    tx_id: Seq<u8>,
    op: ShadowTxTypeView,
)
    requires
        primary.balance < uint256_limit(),
        receiver matches Some(r) ==> r.balance < uint256_limit(),
        writes_balance_in_range(op),
    ensures
        ({
            let after = spec_apply_operation(primary, receiver, tx_id, op);
            &&& 0 <= after.primary.balance < uint256_limit()
            &&& after.receiver matches Some(r) ==> 0 <= r.balance < uint256_limit()
        }),
{
}

/// `Slash` always succeeds, and a second `Slash` changes nothing more.
pub proof fn lemma_slash_idempotent(a: AccountView)
    ensures
        spec_slash(a).1 == ShadowResult::Success,
        spec_slash(spec_slash(a).0) == spec_slash(a),
{
    let once = spec_slash(a).0;
    let twice = spec_slash(once).0;
    match a.commitments {
        Some(cs) => {
            let slashed = transitioned(cs, CommitmentStatus::Slashed);
            assert(transitioned(slashed, CommitmentStatus::Slashed) =~= slashed);
        },
        None => {},
    }
    assert(twice.stake == once.stake);
    assert(twice.commitments == once.commitments);
}

/// A second `Slash` transaction succeeds like the first and changes
/// nothing but the record of the last transaction.
pub proof fn lemma_second_slash_changes_nothing(
    a: AccountView,
    first: Seq<u8>,
    second: Seq<u8>,
    target: crate::shadow::SlashShadowView,
)
    ensures
        ({
            let op = ShadowTxTypeView::Slash(target);
            let once = spec_apply_operation(a, None, first, op);
            let twice = spec_apply_operation(once.primary, None, second, op);
            &&& once.result == ShadowResult::Success
            &&& twice.result == ShadowResult::Success
            &&& twice.primary == with_last_tx(once.primary, second)
        }),
{
    lemma_slash_idempotent(a);
    let once = with_last_tx(spec_slash(a).0, first);
    assert(spec_slash(once).0 == with_last_tx(spec_slash(spec_slash(a).0).0, first));
}

/// A stake that is already slashed stays slashed under `Slash`, and so does
/// every slashed commitment.
pub proof fn lemma_slashed_stays_slashed(a: AccountView)
    ensures
        a.stake matches Some(s) && s.status == CommitmentStatus::Slashed ==> spec_slash(a).0.stake
            == a.stake,
        a.commitments matches Some(cs) ==> forall|i: int|
            0 <= i < cs.len() && (#[trigger] cs[i]).status == CommitmentStatus::Slashed
                ==> spec_slash(a).0.commitments->0[i] == cs[i],
{
}

/// `UnpledgeAll` on an account that just had one succeed refunds nothing
/// more: nothing is active any longer.
pub proof fn lemma_unpledge_all_leaves_nothing_active(a: AccountView)
    requires
        spec_unpledge_all(a).1 == ShadowResult::Success,
    ensures
        total_refund(spec_unpledge_all(a).0) == 0,
{
    match a.commitments {
        Some(cs) => {
            lemma_no_refund_without_active(transitioned(cs, CommitmentStatus::Inactive));
        },
        None => {},
    }
}

/// Commitments of which none is active lock nothing.
pub proof fn lemma_no_refund_without_active(cs: Seq<CommitmentView>)
    requires
        forall|i: int| 0 <= i < cs.len() ==> (#[trigger] cs[i]).status != CommitmentStatus::Active,
    ensures
        commitments_refund(cs) == 0,
    decreases cs.len(),
{
    if cs.len() > 0 {
        lemma_no_refund_without_active(cs.drop_last());
    }
}

/// Whether the commitments that an operation writes directly hold no two
/// active ones for the same destination.
pub open spec fn writes_well_formed_commitments(op: ShadowTxTypeView) -> bool {
    op matches ShadowTxTypeView::Diff(d) ==> (d.commitments matches Some(Some(cs))
        ==> forall|i: int, j: int|
        0 <= i < j < cs.len() && cs[i].status == CommitmentStatus::Active && cs[j].status
            == CommitmentStatus::Active ==> cs[i].destination != cs[j].destination)
}

/// An operation keeps an account well formed: where no two of its
/// commitments were active for the same destination, none are afterwards.
pub proof fn lemma_well_formed_is_kept(
    primary: AccountView,
    receiver: Option<AccountView>,
    tx_id: Seq<u8>,
    op: ShadowTxTypeView,
)
    requires
        primary.well_formed(),
        receiver matches Some(r) ==> r.well_formed(),
        writes_well_formed_commitments(op),
    ensures
        spec_apply_operation(primary, receiver, tx_id, op).primary.well_formed(),
        spec_apply_operation(primary, receiver, tx_id, op).receiver matches Some(r)
            ==> r.well_formed(),
{
    match op {
        ShadowTxTypeView::PartitionUnPledge(p) => {
            let cs = commitments_or_empty(primary);
            if cs.len() > 0 {
                crate::account::lemma_first_active_commitment_for(cs, p.part_hash);
            }
        },
        _ => {},
    }
}

} // verus!
