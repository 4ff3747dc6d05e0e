//! Applying shadow transactions to the ledger: one transaction, a block's
//! sequence of them, and the simulation of one.

use vstd::prelude::*;
use crate::account::AccountView;
use crate::address::Address;
use crate::journaled_state::{map_with_loaded, Database, EntryView, JournaledState};
use crate::operations::{apply_operation, spec_apply_operation};
use crate::receipt::{receipt_views, ShadowReceipt, ShadowReceiptView, ShadowResult};
use crate::shadow::{ShadowTx, ShadowTxType, ShadowTxTypeView, ShadowTxView, Shadows};

verus! {

/// The address that a transaction credits beside its own account: the
/// receiver of a transfer to another address.
pub open spec fn receiver_of(shadow: ShadowTxView) -> Option<Seq<u8>> {
    match shadow.tx {
        ShadowTxTypeView::Transfer(t) => if t.to != shadow.address {
            Some(t.to)
        } else {
            None
        },
        _ => None,
    }
}

/// Whether the ledger has loaded every account that the transaction reads.
pub open spec fn accounts_loaded(state: Map<Seq<u8>, EntryView>, shadow: ShadowTxView) -> bool {
    &&& state.dom().contains(shadow.address)
    &&& receiver_of(shadow) matches Some(to) ==> state.dom().contains(to)
}

/// What a shadow transaction makes of the loaded accounts, and its receipt.
///
/// The operation is evaluated against the account at the transaction's
/// address. That account, and the receiver of a transfer, are written back
/// and marked as touched, whether the operation succeeds or not; every
/// other account stays as it is.
pub open spec fn spec_apply_shadow(state: Map<Seq<u8>, EntryView>, shadow: ShadowTxView) -> (
    Map<Seq<u8>, EntryView>,
    ShadowReceiptView,
)
    recommends
        accounts_loaded(state, shadow),
{
    let receiver = match receiver_of(shadow) {
        Some(to) => Some(state[to].account),
        None => None,
    };
    let applied = spec_apply_operation(
        state[shadow.address].account,
        receiver,
        shadow.tx_id,
        shadow.tx,
    );
    let written = state.insert(
        shadow.address,
        EntryView { account: applied.primary, touched: true },
    );
    (
        match receiver_of(shadow) {
            Some(to) => written.insert(
                to,
                EntryView { account: applied.receiver->0, touched: true },
            ),
            None => written,
        },
        ShadowReceiptView { tx_id: shadow.tx_id, result: applied.result, tx_type: shadow.tx },
    )
}

/// The accounts once the backend has answered for what the transaction
/// reads: `primary` for the transaction's own address and `receiver` for
/// the receiver of a transfer. An answer for an address that is loaded
/// already is not consulted.
pub open spec fn loaded_state(
    state: Map<Seq<u8>, EntryView>,
    shadow: ShadowTxView,
    primary: AccountView,
    receiver: AccountView,
) -> Map<Seq<u8>, EntryView> {
    let with_primary = map_with_loaded(state, shadow.address, primary);
    match receiver_of(shadow) {
        Some(to) => map_with_loaded(with_primary, to, receiver),
        None => with_primary,
    }
}

/// Whether `after` and `receipt` are what the transaction makes of `state`
/// for some answers of the backend.
pub open spec fn shadow_step(
    state: Map<Seq<u8>, EntryView>,
    shadow: ShadowTxView,
    after: Map<Seq<u8>, EntryView>,
    receipt: ShadowReceiptView,
) -> bool {
    exists|primary: AccountView, receiver: AccountView| #[trigger]
        spec_apply_shadow(loaded_state(state, shadow, primary, receiver), shadow) == (
            after,
            receipt,
        )
}

/// Where every account that the transaction reads is loaded, the answers
/// of the backend do not matter.
pub proof fn lemma_loaded_state_of_loaded(
    state: Map<Seq<u8>, EntryView>,
    shadow: ShadowTxView,
    primary: AccountView,
    receiver: AccountView,
)
    requires
        accounts_loaded(state, shadow),
    ensures
        loaded_state(state, shadow, primary, receiver) == state,
{
}

/// A transaction keeps every loaded account loaded and loads no other.
pub proof fn lemma_apply_shadow_keeps_addresses(
    state: Map<Seq<u8>, EntryView>,
    shadow: ShadowTxView,
)
    requires
        accounts_loaded(state, shadow),
    ensures
        spec_apply_shadow(state, shadow).0.dom() == state.dom(),
{
    assert(spec_apply_shadow(state, shadow).0.dom() =~= state.dom());
}

/// A transfer between two loaded accounts neither makes nor destroys
/// balance: the two balances together are the same before and after,
/// whatever the result, and every other account is as it was.
pub proof fn lemma_transfer_conserves_ledger_balance(
    state: Map<Seq<u8>, EntryView>,
    shadow: ShadowTxView,
)
    requires
        accounts_loaded(state, shadow),
        shadow.tx is Transfer,
        receiver_of(shadow) is Some,
    ensures
        ({
            let after = spec_apply_shadow(state, shadow).0;
            let from = shadow.address;
            let to = receiver_of(shadow)->0;
            &&& after[from].account.balance + after[to].account.balance
                == state[from].account.balance + state[to].account.balance
            &&& forall|other: Seq<u8>|
                state.dom().contains(other) && other != from && other != to ==> after[other]
                    == state[other]
        }),
{
}

/// A transaction that does not succeed leaves every loaded account as it
/// was: only the marks on the accounts that it read are set.
pub proof fn lemma_soft_failure_keeps_accounts(
    state: Map<Seq<u8>, EntryView>,
    shadow: ShadowTxView,
)
    requires
        accounts_loaded(state, shadow),
        spec_apply_shadow(state, shadow).1.result != ShadowResult::Success,
    ensures
        spec_apply_shadow(state, shadow).0.dom() == state.dom(),
        forall|address: Seq<u8>|
            state.dom().contains(address) ==> (#[trigger] spec_apply_shadow(
                state,
                shadow,
            ).0[address]).account == state[address].account,
{
    lemma_apply_shadow_keeps_addresses(state, shadow);
}

/// On success the transaction is recorded as the last one of the account
/// at its address, unless it is a `Diff`.
pub proof fn lemma_success_records_the_transaction(
    state: Map<Seq<u8>, EntryView>,
    shadow: ShadowTxView,
)
    requires
        accounts_loaded(state, shadow),
        spec_apply_shadow(state, shadow).1.result == ShadowResult::Success,
        !(shadow.tx is Diff),
    ensures
        spec_apply_shadow(state, shadow).0[shadow.address].account.last_tx == Some(
            shadow.tx_id,
        ),
{
}

/// The receiver of a transfer to another address.
fn receiver_address(shadow: &ShadowTx) -> (r: Option<Address>)
    ensures
        match receiver_of(shadow@) {
            Some(to) => r matches Some(a) && a@ == to,
            None => r.is_none(),
        },
{
    match &shadow.tx {
        ShadowTxType::Transfer(t) => if t.to.is_equal(&shadow.address) {
            None
        } else {
            Some(t.to)
        },
        _ => None,
    }
}

/// Applies a shadow transaction to accounts that are loaded.
fn apply_to_loaded(shadow: ShadowTx, journaled_state: &mut JournaledState) -> (receipt:
    ShadowReceipt)
    requires
        accounts_loaded(old(journaled_state)@.state, shadow@),
    ensures
        final(journaled_state)@.checkpoints == old(journaled_state)@.checkpoints,
        (final(journaled_state)@.state, receipt@) == spec_apply_shadow(
            old(journaled_state)@.state,
            shadow@,
        ),
{
    let to = receiver_address(&shadow);
    let primary = match journaled_state.account(&shadow.address) {
        Some(account) => account,
        None => vstd::pervasive::unreached(),
    };
    let receiver = match &to {
        Some(address) => match journaled_state.account(address) {
            Some(account) => Some(account),
            None => vstd::pervasive::unreached(),
        },
        None => None,
    };
    let applied = apply_operation(primary, receiver, &shadow.tx_id, &shadow.tx);
    journaled_state.set_account(&shadow.address, applied.primary);
    match (to, applied.receiver) {
        (Some(address), Some(account)) => {
            journaled_state.set_account(&address, account);
        },
        _ => {},
    }
    ShadowReceipt { tx_id: shadow.tx_id, result: applied.result, tx_type: shadow.tx }
}

/// Applies a shadow transaction to the ledger without asking the backend.
///
/// Where an account that the transaction reads is not loaded, nothing is
/// returned and the ledger stays as it is.
pub fn apply_loaded_shadow(shadow: ShadowTx, journaled_state: &mut JournaledState) -> (r: Option<
    ShadowReceipt,
>)
    ensures
        r is Some == accounts_loaded(old(journaled_state)@.state, shadow@),
        r is None ==> final(journaled_state)@ == old(journaled_state)@,
        r matches Some(receipt) ==> {
            &&& final(journaled_state)@.checkpoints == old(journaled_state)@.checkpoints
            &&& (final(journaled_state)@.state, receipt@) == spec_apply_shadow(
                old(journaled_state)@.state,
                shadow@,
            )
        },
{
    if !journaled_state.is_loaded(&shadow.address) {
        return None;
    }
    match receiver_address(&shadow) {
        Some(to) => {
            if !journaled_state.is_loaded(&to) {
                return None;
            }
        },
        None => {},
    }
    Some(apply_to_loaded(shadow, journaled_state))
}

/// Applies one shadow transaction to the ledger: loads the account at its
/// address and, for a transfer, the receiver's, evaluates the operation,
/// writes the accounts back and returns the receipt.
///
/// A soft failure is a receipt, not an error. Only the backend makes this
/// fail, and it is not asked where the accounts are loaded already. After a
/// failure the ledger is as it was, but for the transaction's own account
/// where that was loaded before the backend failed on the receiver.
pub fn apply_shadow<DB: Database>(
    shadow: ShadowTx,
    journaled_state: &mut JournaledState,
    db: &mut DB,
) -> (r: Result<ShadowReceipt, DB::Error>)
    ensures
        final(journaled_state)@.checkpoints == old(journaled_state)@.checkpoints,
        accounts_loaded(old(journaled_state)@.state, shadow@) ==> (r matches Ok(receipt) && (
            final(journaled_state)@.state,
            receipt@,
        ) == spec_apply_shadow(old(journaled_state)@.state, shadow@)),
        r matches Ok(receipt) ==> shadow_step(
            old(journaled_state)@.state,
            shadow@,
            final(journaled_state)@.state,
            receipt@,
        ),
        r is Err ==> !accounts_loaded(old(journaled_state)@.state, shadow@),
        r is Err ==> final(journaled_state)@ == old(journaled_state)@ || exists|
            account: AccountView,
        | #[trigger]
            old(journaled_state)@.with_loaded(shadow@.address, account) == final(journaled_state)@,
{
    match journaled_state.load_account(&shadow.address, db) {
        Ok(()) => {},
        Err(e) => {
            return Err(e);
        },
    }
    let ghost with_primary = journaled_state@;
    match receiver_address(&shadow) {
        Some(to) => {
            match journaled_state.load_account(&to, db) {
                Ok(()) => {},
                Err(e) => {
                    return Err(e);
                },
            }
        },
        None => {},
    }
    let ghost loaded = journaled_state@;
    let ghost shadow_view = shadow@;
    let receipt = apply_to_loaded(shadow, journaled_state);
    proof {
        let p = choose|account: AccountView| #[trigger]
            old(journaled_state)@.with_loaded(shadow_view.address, account) == with_primary;
        let t = match receiver_of(shadow_view) {
            Some(to) => choose|account: AccountView| #[trigger]
                with_primary.with_loaded(to, account) == loaded,
            None => p,
        };
        assert(loaded.state == loaded_state(old(journaled_state)@.state, shadow_view, p, t));
        assert(spec_apply_shadow(
            loaded_state(old(journaled_state)@.state, shadow_view, p, t),
            shadow_view,
        ) == (journaled_state@.state, receipt@));
    }
    Ok(receipt)
}

/// Whether the ledger has loaded every account that any of the
/// transactions reads.
pub open spec fn all_accounts_loaded(
    state: Map<Seq<u8>, EntryView>,
    shadows: Seq<ShadowTxView>,
) -> bool {
    forall|i: int| 0 <= i < shadows.len() ==> accounts_loaded(state, #[trigger] shadows[i])
}

/// What a sequence of shadow transactions, applied in order, makes of
/// loaded accounts, and the receipts in the same order.
pub open spec fn spec_apply_block(state: Map<Seq<u8>, EntryView>, shadows: Seq<ShadowTxView>) -> (
    Map<Seq<u8>, EntryView>,
    Seq<ShadowReceiptView>,
)
    decreases shadows.len(),
{
    if shadows.len() == 0 {
        (state, Seq::empty())
    } else {
        let (before, receipts) = spec_apply_block(state, shadows.drop_last());
        let (after, receipt) = spec_apply_shadow(before, shadows.last());
        (after, receipts.push(receipt))
    }
}

/// What a sequence of shadow transactions, applied in order, makes of the
/// accounts where the backend answers `answers[i]` for the accounts that
/// transaction `i` reads: the first account for its own address, the
/// second for the receiver of a transfer.
pub open spec fn spec_apply_block_with(
    state: Map<Seq<u8>, EntryView>,
    shadows: Seq<ShadowTxView>,
    answers: Seq<(AccountView, AccountView)>,
) -> (Map<Seq<u8>, EntryView>, Seq<ShadowReceiptView>)
    decreases shadows.len(),
{
    if shadows.len() == 0 {
        (state, Seq::empty())
    } else {
        let (before, receipts) = spec_apply_block_with(
            state,
            shadows.drop_last(),
            answers.drop_last(),
        );
        let (after, receipt) = spec_apply_shadow(
            loaded_state(before, shadows.last(), answers.last().0, answers.last().1),
            shadows.last(),
        );
        (after, receipts.push(receipt))
    }
}

/// Where every account that the block reads is loaded, the answers of the
/// backend do not matter, and the block loads no account.
pub proof fn lemma_apply_block_of_loaded(
    state: Map<Seq<u8>, EntryView>,
    shadows: Seq<ShadowTxView>,
    answers: Seq<(AccountView, AccountView)>,
)
    requires
        all_accounts_loaded(state, shadows),
    ensures
        spec_apply_block_with(state, shadows, answers) == spec_apply_block(state, shadows),
        spec_apply_block(state, shadows).0.dom() == state.dom(),
    decreases shadows.len(),
{
    if shadows.len() > 0 {
        let earlier = shadows.drop_last();
        assert forall|i: int| 0 <= i < earlier.len() implies accounts_loaded(
            state,
            #[trigger] earlier[i],
        ) by {
            assert(earlier[i] == shadows[i]);
        }
        lemma_apply_block_of_loaded(state, earlier, answers.drop_last());
        let before = spec_apply_block(state, earlier).0;
        assert(accounts_loaded(state, shadows[shadows.len() - 1]));
        assert(accounts_loaded(before, shadows.last()));
        lemma_loaded_state_of_loaded(
            before,
            shadows.last(),
            answers.last().0,
            answers.last().1,
        );
        lemma_apply_shadow_keeps_addresses(before, shadows.last());
    }
}

/// The receipts of a block are one per transaction, in the order of the
/// transactions: receipt `i` names transaction `i` and holds its operation.
pub proof fn lemma_receipts_follow_the_input(
    state: Map<Seq<u8>, EntryView>,
    shadows: Seq<ShadowTxView>,
    answers: Seq<(AccountView, AccountView)>,
)
    ensures
        spec_apply_block_with(state, shadows, answers).1.len() == shadows.len(),
        forall|i: int|
            0 <= i < shadows.len() ==> {
                &&& (#[trigger] spec_apply_block_with(state, shadows, answers).1[i]).tx_id
                    == shadows[i].tx_id
                &&& spec_apply_block_with(state, shadows, answers).1[i].tx_type == shadows[i].tx
            },
    decreases shadows.len(),
{
    if shadows.len() > 0 {
        lemma_receipts_follow_the_input(state, shadows.drop_last(), answers.drop_last());
    }
}

/// An empty sequence of shadow transactions changes nothing and yields no
/// receipt.
pub proof fn lemma_empty_block(state: Map<Seq<u8>, EntryView>)
    ensures
        spec_apply_block(state, Seq::empty()) == (state, Seq::<ShadowReceiptView>::empty()),
{
}

/// The ledger and the backend that a block is executed on.
pub struct Evm<DB: Database> {
    pub journaled_state: JournaledState,
    pub db: DB,
}

/// Simulates one shadow transaction: applies it under a checkpoint and
/// reverts the checkpoint, whatever the outcome. The ledger is left as it
/// was.
pub fn simulate_apply_shadow_thin<DB: Database>(
    shadow: ShadowTx,
    journaled_state: &mut JournaledState,
    db: &mut DB,
) -> (r: Result<ShadowReceipt, DB::Error>)
    ensures
        final(journaled_state)@ == old(journaled_state)@,
        accounts_loaded(old(journaled_state)@.state, shadow@) ==> (r matches Ok(receipt)
            && receipt@ == spec_apply_shadow(old(journaled_state)@.state, shadow@).1),
        r matches Ok(receipt) ==> exists|after: Map<Seq<u8>, EntryView>| #[trigger]
            shadow_step(old(journaled_state)@.state, shadow@, after, receipt@),
{
    let checkpoint = journaled_state.checkpoint();
    let result = apply_shadow(shadow, journaled_state, db);
    proof {
        if result is Ok {
            assert(shadow_step(
                old(journaled_state)@.state,
                shadow@,
                journaled_state@.state,
                result->Ok_0@,
            ));
        }
    }
    journaled_state.checkpoint_revert(checkpoint);
    proof {
        assert(journaled_state@.checkpoints =~= old(journaled_state)@.checkpoints);
    }
    result
}

/// Simulates one shadow transaction on the ledger of `evm`, which is left
/// as it was.
pub fn simulate_apply_shadow<DB: Database>(shadow: ShadowTx, evm: &mut Evm<DB>) -> (r: Result<
    ShadowReceipt,
    DB::Error,
>)
    ensures
        final(evm).journaled_state@ == old(evm).journaled_state@,
        accounts_loaded(old(evm).journaled_state@.state, shadow@) ==> (r matches Ok(receipt)
            && receipt@ == spec_apply_shadow(old(evm).journaled_state@.state, shadow@).1),
        r matches Ok(receipt) ==> exists|after: Map<Seq<u8>, EntryView>| #[trigger]
            shadow_step(old(evm).journaled_state@.state, shadow@, after, receipt@),
{
    simulate_apply_shadow_thin(shadow, &mut evm.journaled_state, &mut evm.db)
}

/// Applies the shadow transactions of a block, in their order.
///
/// Each transaction runs under its own checkpoint, which is committed when
/// the transaction has a receipt, a soft failure included. A backend error
/// ends the block: every checkpoint is reverted, the ledger is as it was
/// before the call, and the error is handed on with no receipt. Without
/// shadow transactions nothing is done and nothing is returned.
pub fn apply_block_shadows<DB: Database>(shadows: Option<&Shadows>, evm: &mut Evm<DB>) -> (r:
    Result<Option<Vec<ShadowReceipt>>, DB::Error>)
    ensures
        final(evm).journaled_state@.checkpoints == old(evm).journaled_state@.checkpoints,
        r is Err ==> shadows is Some && final(evm).journaled_state@ == old(evm).journaled_state@,
        shadows is None ==> (r matches Ok(None) && final(evm).journaled_state@ == old(
            evm,
        ).journaled_state@),
        shadows matches Some(list) ==> {
            &&& all_accounts_loaded(old(evm).journaled_state@.state, list@) ==> (r matches Ok(
                Some(receipts),
            ) && (final(evm).journaled_state@.state, receipt_views(receipts@))
                == spec_apply_block(old(evm).journaled_state@.state, list@))
            &&& r matches Ok(done) ==> (done matches Some(receipts) && exists|
                answers: Seq<(AccountView, AccountView)>,
            |
                answers.len() == list@.len() && #[trigger] spec_apply_block_with(
                    old(evm).journaled_state@.state,
                    list@,
                    answers,
                ) == (final(evm).journaled_state@.state, receipt_views(receipts@)))
        },
{
    let list = match shadows {
        Some(list) => list,
        None => {
            return Ok(None);
        },
    };
    let ghost start = evm.journaled_state@;
    let outer = evm.journaled_state.checkpoint();
    let mut receipts: Vec<ShadowReceipt> = Vec::new();
    let ghost mut answers: Seq<(AccountView, AccountView)> = Seq::empty();
    let mut i: usize = 0;
    proof {
        assert(list@.take(0) =~= Seq::<ShadowTxView>::empty());
        assert(receipt_views(receipts@) =~= Seq::<ShadowReceiptView>::empty());
    }
    while i < list.len()
        invariant
            i <= list@.len(),
            shadows == Some(list),
            start == old(evm).journaled_state@,
            outer.depth == start.checkpoints.len(),
            evm.journaled_state@.checkpoints == start.checkpoints.push(start.state),
            answers.len() == i,
            receipts@.len() == i,
            spec_apply_block_with(start.state, list@.take(i as int), answers) == (
                evm.journaled_state@.state,
                receipt_views(receipts@),
            ),
            all_accounts_loaded(start.state, list@) ==> evm.journaled_state@.state.dom()
                == start.state.dom(),
        decreases list@.len() - i,
    {
        let ghost before = evm.journaled_state@;
        let ghost received = receipt_views(receipts@);
        let inner = evm.journaled_state.checkpoint();
        let shadow = list.get(i).clone();
        proof {
            if all_accounts_loaded(start.state, list@) {
                assert(accounts_loaded(start.state, list@[i as int]));
                assert(accounts_loaded(before.state, shadow@));
            }
        }
        match apply_shadow(shadow, &mut evm.journaled_state, &mut evm.db) {
            Ok(receipt) => {
                evm.journaled_state.checkpoint_commit();
                proof {
                    let shadow_view = list@[i as int];
                    let after = evm.journaled_state@.state;
                    assert(shadow_step(before.state, shadow_view, after, receipt@));
                    let (p, t) = choose|p: AccountView, t: AccountView| #[trigger]
                        spec_apply_shadow(
                            loaded_state(before.state, shadow_view, p, t),
                            shadow_view,
                        ) == (after, receipt@);
                    let longer = answers.push((p, t));
                    let done = list@.take(i + 1);
                    assert(done.drop_last() =~= list@.take(i as int));
                    assert(done.last() == shadow_view);
                    assert(longer.drop_last() =~= answers);
                    assert(longer.last() == (p, t));
                    assert(spec_apply_block_with(start.state, done, longer) == (
                        after,
                        received.push(receipt@),
                    ));
                    assert(evm.journaled_state@.checkpoints =~= start.checkpoints.push(
                        start.state,
                    ));
                    if all_accounts_loaded(start.state, list@) {
                        lemma_apply_shadow_keeps_addresses(before.state, shadow_view);
                    }
                    answers = longer;
                }
                receipts.push(receipt);
                proof {
                    assert(receipt_views(receipts@) =~= received.push(receipt@));
                }
            },
            Err(e) => {
                evm.journaled_state.checkpoint_revert(inner);
                evm.journaled_state.checkpoint_revert(outer);
                proof {
                    assert(evm.journaled_state@.checkpoints =~= start.checkpoints);
                    assert(evm.journaled_state@.state == start.state);
                }
                return Err(e);
            },
        }
        i = i + 1;
    }
    evm.journaled_state.checkpoint_commit();
    proof {
        assert(list@.take(list@.len() as int) =~= list@);
        assert(evm.journaled_state@.checkpoints =~= start.checkpoints);
        if all_accounts_loaded(start.state, list@) {
            lemma_apply_block_of_loaded(start.state, list@, answers);
        }
    }
    Ok(Some(receipts))
}

} // verus!
