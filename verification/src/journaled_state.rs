//! The ledger's accounts in memory, with checkpoints, and the backend that
//! accounts are loaded from.

use vstd::prelude::*;
use crate::account::{Account, AccountView};
use crate::address::Address;

verus! {

/// The persistence backend: where the ledger loads accounts from.
///
/// Nothing is assumed of an implementation: what the library states of a
/// call that reaches the backend holds whatever the backend hands back.
pub trait Database {
    /// What the backend reports when it cannot answer.
    type Error;

    /// The account stored at `address`, or nothing where the backend has
    /// none.
    fn basic(&mut self, address: &Address) -> Result<Option<Account>, Self::Error>;
}

/// One loaded account of the ledger.
#[derive(Debug, PartialEq, Eq)]
pub struct AccountEntry {
    pub address: Address,
    pub account: Account,
    /// Whether a transaction has read or written the account.
    pub touched: bool,
}

/// What the ledger knows of one address, as plain values.
pub struct EntryView {
    pub account: AccountView,
    pub touched: bool,
}

impl View for AccountEntry {
    type V = EntryView;

    open spec fn view(&self) -> EntryView {
        EntryView { account: self.account@, touched: self.touched }
    }
}

impl Clone for AccountEntry {
    fn clone(&self) -> (r: Self)
        ensures
            r.address == self.address,
            r@ == self@,
    {
        AccountEntry {
            address: self.address,
            account: self.account.clone(),
            touched: self.touched,
        }
    }
}

/// The index of the first entry for `address`.
pub open spec fn position(entries: Seq<AccountEntry>, address: Seq<u8>) -> Option<int>
    decreases entries.len(),
{
    if entries.len() == 0 {
        None
    } else {
        match position(entries.drop_last(), address) {
            Some(i) => Some(i),
            None => if entries.last().address@ == address {
                Some(entries.len() - 1)
            } else {
                None
            },
        }
    }
}

/// The accounts that a list of entries holds, by address. Where an address
/// occurs twice, its first entry counts.
pub open spec fn entries_map(entries: Seq<AccountEntry>) -> Map<Seq<u8>, EntryView> {
    Map::new(
        |a: Seq<u8>| position(entries, a) is Some,
        |a: Seq<u8>| entries[position(entries, a)->0]@,
    )
}

/// `position` finds the least index whose entry is for the address, and
/// finds none only where there is none.
pub proof fn lemma_position(entries: Seq<AccountEntry>, address: Seq<u8>)
    ensures
        match position(entries, address) {
            Some(i) => {
                &&& 0 <= i < entries.len()
                &&& entries[i].address@ == address
                &&& forall|j: int| 0 <= j < i ==> entries[j].address@ != address
            },
            None => forall|j: int| 0 <= j < entries.len() ==> entries[j].address@ != address,
        },
    decreases entries.len(),
{
    if entries.len() > 0 {
        let shorter = entries.drop_last();
        lemma_position(shorter, address);
        assert(forall|j: int| 0 <= j < shorter.len() ==> shorter[j] == entries[j]);
    }
}

/// Lists that agree on their addresses, index by index, find every address
/// at the same index.
pub proof fn lemma_position_by_addresses(
    a: Seq<AccountEntry>,
    b: Seq<AccountEntry>,
    address: Seq<u8>,
)
    requires
        a.len() == b.len(),
        forall|j: int| 0 <= j < a.len() ==> a[j].address@ == b[j].address@,
    ensures
        position(a, address) == position(b, address),
    decreases a.len(),
{
    if a.len() > 0 {
        lemma_position_by_addresses(a.drop_last(), b.drop_last(), address);
    }
}

/// Lists that agree on their addresses and on the views of their entries,
/// index by index, hold the same accounts.
pub proof fn lemma_entries_map_by_views(a: Seq<AccountEntry>, b: Seq<AccountEntry>)
    requires
        a.len() == b.len(),
        forall|j: int| 0 <= j < a.len() ==> a[j].address@ == b[j].address@ && a[j]@ == b[j]@,
    ensures
        entries_map(a) == entries_map(b),
{
    assert forall|k: Seq<u8>| position(a, k) == position(b, k) by {
        lemma_position_by_addresses(a, b, k);
    }
    assert forall|k: Seq<u8>| #[trigger]
        entries_map(a).dom().contains(k) implies entries_map(a)[k] == entries_map(b)[k] by {
        lemma_position(a, k);
    }
    assert(entries_map(a) =~= entries_map(b));
}

/// An entry put behind a list that has none for its address adds that
/// address; put behind one that has, it changes nothing.
pub proof fn lemma_entries_map_push(entries: Seq<AccountEntry>, entry: AccountEntry)
    ensures
        entries_map(entries.push(entry)) == if position(entries, entry.address@) is Some {
            entries_map(entries)
        } else {
            entries_map(entries).insert(entry.address@, entry@)
        },
{
    let longer = entries.push(entry);
    assert(longer.drop_last() =~= entries);
    assert forall|k: Seq<u8>| #[trigger]
        position(longer, k) == match position(entries, k) {
            Some(i) => Some(i),
            None => if entry.address@ == k {
                Some(entries.len() as int)
            } else {
                None
            },
        } by {}
    assert forall|k: Seq<u8>| position(entries, k) is Some implies longer[position(
        entries,
        k,
    )->0] == entries[position(entries, k)->0] by {
        lemma_position(entries, k);
    }
    if position(entries, entry.address@) is Some {
        assert(entries_map(longer) =~= entries_map(entries));
    } else {
        assert(entries_map(longer) =~= entries_map(entries).insert(entry.address@, entry@));
    }
}

/// An entry written over the first entry for its address replaces what the
/// list holds for that address, and nothing else.
pub proof fn lemma_entries_map_update(entries: Seq<AccountEntry>, i: int, entry: AccountEntry)
    requires
        position(entries, entry.address@) == Some(i),
    ensures
        entries_map(entries.update(i, entry)) == entries_map(entries).insert(
            entry.address@,
            entry@,
        ),
{
    lemma_position(entries, entry.address@);
    let updated = entries.update(i, entry);
    assert forall|k: Seq<u8>| position(updated, k) == position(entries, k) by {
        lemma_position_by_addresses(updated, entries, k);
    }
    assert forall|k: Seq<u8>| #[trigger]
        entries_map(updated).dom().contains(k) implies entries_map(updated)[k] == entries_map(
        entries,
    ).insert(entry.address@, entry@)[k] by {
        lemma_position(entries, k);
    }
    assert(entries_map(updated) =~= entries_map(entries).insert(entry.address@, entry@));
}

/// A copy of a list of entries.
fn clone_entries(entries: &Vec<AccountEntry>) -> (r: Vec<AccountEntry>)
    ensures
        entries_map(r@) == entries_map(entries@),
{
    let mut r: Vec<AccountEntry> = Vec::new();
    let mut i: usize = 0;
    while i < entries.len()
        invariant
            i <= entries@.len(),
            r@.len() == i,
            forall|j: int|
                0 <= j < i ==> (#[trigger] r@[j]).address == entries@[j].address && r@[j]@
                    == entries@[j]@,
        decreases entries@.len() - i,
    {
        r.push(entries[i].clone());
        i = i + 1;
    }
    proof {
        lemma_entries_map_by_views(r@, entries@);
    }
    r
}

/// A mark in the ledger's history that `checkpoint_revert` can return to.
#[derive(Clone, Copy, Debug, PartialEq, Eq)]
pub struct JournalCheckpoint {
    /// How many checkpoints were open when this one was made.
    pub depth: usize,
}

/// The accounts that the ledger has loaded, with the checkpoints that are
/// open on them.
#[derive(Debug)]
pub struct JournaledState {
    state: Vec<AccountEntry>,
    /// The accounts as they were at each open checkpoint, the innermost
    /// last.
    checkpoints: Vec<Vec<AccountEntry>>,
}

/// What a `JournaledState` holds, as plain values.
pub struct JournaledStateView {
    /// The loaded accounts, by address.
    pub state: Map<Seq<u8>, EntryView>,
    /// The loaded accounts as they were at each open checkpoint, the
    /// innermost last.
    pub checkpoints: Seq<Map<Seq<u8>, EntryView>>,
}

/// The accounts that each of the snapshots holds.
pub open spec fn snapshot_maps(snapshots: Seq<Vec<AccountEntry>>) -> Seq<Map<Seq<u8>, EntryView>> {
    Seq::new(snapshots.len(), |i: int| entries_map(snapshots[i]@))
}

impl View for JournaledState {
    type V = JournaledStateView;

    closed spec fn view(&self) -> JournaledStateView {
        JournaledStateView {
            state: entries_map(self.state@),
            checkpoints: snapshot_maps(self.checkpoints@),
        }
    }
}

/// The accounts with `account` loaded at `address` and not yet touched,
/// unless the address is loaded already.
pub open spec fn map_with_loaded(
    state: Map<Seq<u8>, EntryView>,
    address: Seq<u8>,
    account: AccountView,
) -> Map<Seq<u8>, EntryView> {
    if state.dom().contains(address) {
        state
    } else {
        state.insert(address, EntryView { account, touched: false })
    }
}

impl JournaledStateView {
    /// The ledger with `account` loaded at `address` and not yet touched,
    /// unless the address is loaded already.
    pub open spec fn with_loaded(
        self,
        address: Seq<u8>,
        account: AccountView,
    ) -> JournaledStateView {
        JournaledStateView { state: map_with_loaded(self.state, address, account), ..self }
    }

    /// The ledger with the account at `address` marked as touched, where it
    /// is loaded.
    pub open spec fn with_touched(self, address: Seq<u8>) -> JournaledStateView {
        if self.state.dom().contains(address) {
            JournaledStateView {
                state: self.state.insert(
                    address,
                    EntryView { account: self.state[address].account, touched: true },
                ),
                ..self
            }
        } else {
            self
        }
    }

    /// The ledger with `account` written at `address` and marked as
    /// touched.
    pub open spec fn with_account(
        self,
        address: Seq<u8>,
        account: AccountView,
    ) -> JournaledStateView {
        JournaledStateView {
            state: self.state.insert(address, EntryView { account, touched: true }),
            ..self
        }
    }

    /// The ledger with one more checkpoint open, on the accounts as they
    /// are.
    pub open spec fn with_checkpoint(self) -> JournaledStateView {
        JournaledStateView { checkpoints: self.checkpoints.push(self.state), ..self }
    }

    /// The ledger with its innermost checkpoint closed and the accounts
    /// kept as they are. Without an open checkpoint, nothing changes.
    pub open spec fn committed(self) -> JournaledStateView {
        if self.checkpoints.len() > 0 {
            JournaledStateView { checkpoints: self.checkpoints.drop_last(), ..self }
        } else {
            self
        }
    }

    /// The ledger as it was when the checkpoint of the given depth was
    /// made: the accounts of that time, and only the checkpoints that were
    /// open then. Where no such checkpoint is open, nothing changes.
    pub open spec fn reverted(self, depth: nat) -> JournaledStateView {
        if depth < self.checkpoints.len() {
            JournaledStateView {
                state: self.checkpoints[depth as int],
                checkpoints: self.checkpoints.take(depth as int),
            }
        } else {
            self
        }
    }
}

/// Reverting a checkpoint restores the ledger as it was when the
/// checkpoint was opened, whatever was done to the accounts since and
/// however many checkpoints were opened after it.
pub proof fn lemma_revert_restores(
    ledger: JournaledStateView,
    changed: Map<Seq<u8>, EntryView>,
    opened_later: Seq<Map<Seq<u8>, EntryView>>,
)
    ensures
        (JournaledStateView {
            state: changed,
            checkpoints: ledger.with_checkpoint().checkpoints + opened_later,
        }).reverted(ledger.checkpoints.len()) == ledger,
{
    let later = JournaledStateView {
        state: changed,
        checkpoints: ledger.with_checkpoint().checkpoints + opened_later,
    };
    assert(later.checkpoints.take(ledger.checkpoints.len() as int) =~= ledger.checkpoints);
}

/// Committing a checkpoint keeps the accounts as they are and leaves the
/// checkpoints that were open before it.
pub proof fn lemma_commit_keeps(ledger: JournaledStateView, changed: Map<Seq<u8>, EntryView>)
    ensures
        (JournaledStateView {
            state: changed,
            checkpoints: ledger.with_checkpoint().checkpoints,
        }).committed() == (JournaledStateView { state: changed, checkpoints: ledger.checkpoints }),
{
    assert(ledger.with_checkpoint().checkpoints.drop_last() =~= ledger.checkpoints);
}

impl JournaledState {
    /// A ledger without accounts and without checkpoints.
    pub fn new() -> (r: Self)
        ensures
            r@.state == Map::<Seq<u8>, EntryView>::empty(),
            r@.checkpoints == Seq::<Map<Seq<u8>, EntryView>>::empty(),
    {
        let r = JournaledState { state: Vec::new(), checkpoints: Vec::new() };
        assert(r@.state =~= Map::<Seq<u8>, EntryView>::empty());
        assert(r@.checkpoints =~= Seq::<Map<Seq<u8>, EntryView>>::empty());
        r
    }

    /// The index of the first entry for `address`.
    fn find(&self, address: &Address) -> (r: Option<usize>)
        ensures
            match position(self.state@, address@) {
                Some(i) => r matches Some(k) && k == i,
                None => r.is_none(),
            },
            r matches Some(k) ==> k < self.state@.len() && self.state@[k as int].address@
                == address@,
    {
        let mut i: usize = 0;
        while i < self.state.len()
            invariant
                i <= self.state@.len(),
                forall|j: int| 0 <= j < i ==> (#[trigger] self.state@[j]).address@ != address@,
            decreases self.state@.len() - i,
        {
            if self.state[i].address.is_equal(address) {
                proof {
                    lemma_position(self.state@, address@);
                }
                return Some(i);
            }
            i = i + 1;
        }
        proof {
            lemma_position(self.state@, address@);
        }
        None
    }

    /// Whether the account at `address` is loaded.
    pub fn is_loaded(&self, address: &Address) -> (r: bool)
        ensures
            r == self@.state.dom().contains(address@),
    {
        self.find(address).is_some()
    }

    /// A copy of the account at `address`, where it is loaded.
    pub fn account(&self, address: &Address) -> (r: Option<Account>)
        ensures
            match r {
                Some(a) => self@.state.dom().contains(address@) && a@
                    == self@.state[address@].account,
                None => !self@.state.dom().contains(address@),
            },
    {
        match self.find(address) {
            Some(i) => Some(self.state[i].account.clone()),
            None => None,
        }
    }

    /// Whether the account at `address` is loaded and touched.
    pub fn is_touched(&self, address: &Address) -> (r: bool)
        ensures
            r == (self@.state.dom().contains(address@) && self@.state[address@].touched),
    {
        match self.find(address) {
            Some(i) => self.state[i].touched,
            None => false,
        }
    }

    /// The loaded accounts, each with its address and its mark. Where an
    /// address occurs twice, its first entry counts.
    pub fn entries(&self) -> (r: &[AccountEntry])
        ensures
            entries_map(r@) == self@.state,
    {
        self.state.as_slice()
    }

    /// How many checkpoints are open.
    pub fn depth(&self) -> (r: usize)
        ensures
            r == self@.checkpoints.len(),
    {
        self.checkpoints.len()
    }

    /// Takes what the backend answered for `address` into the ledger.
    ///
    /// Where the address is loaded already, the answer is not consulted.
    /// Otherwise an account, or the empty account where the backend has
    /// none, is loaded untouched; and a backend error is handed on, with the
    /// ledger as it was.
    pub fn load_account_with<E>(
        &mut self,
        address: &Address,
        fetched: Result<Option<Account>, E>,
    ) -> (r: Result<(), E>)
        ensures
            old(self)@.state.dom().contains(address@) ==> r is Ok && final(self)@ == old(self)@,
            !old(self)@.state.dom().contains(address@) ==> match fetched {
                Ok(Some(account)) => r is Ok && final(self)@ == old(self)@.with_loaded(
                    address@,
                    account@,
                ),
                Ok(None) => r is Ok && final(self)@ == old(self)@.with_loaded(
                    address@,
                    Account::spec_empty(),
                ),
                Err(e) => r == Err::<(), E>(e) && final(self)@ == old(self)@,
            },
    {
        if self.find(address).is_some() {
            return Ok(());
        }
        let account = match fetched {
            Ok(Some(account)) => account,
            Ok(None) => Account::empty(),
            Err(e) => {
                return Err(e);
            },
        };
        let entry = AccountEntry { address: *address, account, touched: false };
        proof {
            lemma_entries_map_push(self.state@, entry);
        }
        self.state.push(entry);
        Ok(())
    }

    /// Loads the account at `address` from the backend, unless it is loaded
    /// already. Only a backend error makes this fail, and the ledger is then
    /// as it was.
    pub fn load_account<DB: Database>(&mut self, address: &Address, db: &mut DB) -> (r: Result<
        (),
        DB::Error,
    >)
        ensures
            old(self)@.state.dom().contains(address@) ==> r is Ok && final(self)@ == old(self)@,
            r is Ok ==> exists|account: AccountView| #[trigger]
                old(self)@.with_loaded(address@, account) == final(self)@,
            r is Err ==> final(self)@ == old(self)@,
    {
        if self.is_loaded(address) {
            assert(old(self)@.with_loaded(address@, Account::spec_empty()) == self@);
            return Ok(());
        }
        let fetched = db.basic(address);
        let ghost answer = fetched;
        let r = self.load_account_with(address, fetched);
        proof {
            match answer {
                Ok(Some(account)) => {
                    assert(old(self)@.with_loaded(address@, account@) == self@);
                },
                Ok(None) => {
                    assert(old(self)@.with_loaded(address@, Account::spec_empty()) == self@);
                },
                Err(_) => {},
            }
        }
        r
    }

    /// Marks the account at `address` as touched, where it is loaded.
    pub fn touch(&mut self, address: &Address)
        ensures
            final(self)@ == old(self)@.with_touched(address@),
    {
        match self.find(address) {
            Some(i) => {
                let entry = AccountEntry {
                    address: *address,
                    account: self.state[i].account.clone(),
                    touched: true,
                };
                proof {
                    lemma_entries_map_update(self.state@, i as int, entry);
                    lemma_position(self.state@, address@);
                }
                self.state.set(i, entry);
            },
            None => {},
        }
    }

    /// Writes `account` at `address` and marks it as touched.
    pub fn set_account(&mut self, address: &Address, account: Account)
        ensures
            final(self)@ == old(self)@.with_account(address@, account@),
    {
        let entry = AccountEntry { address: *address, account, touched: true };
        match self.find(address) {
            Some(i) => {
                proof {
                    lemma_entries_map_update(self.state@, i as int, entry);
                }
                self.state.set(i, entry);
            },
            None => {
                proof {
                    lemma_entries_map_push(self.state@, entry);
                }
                self.state.push(entry);
            },
        }
    }

    /// Opens a checkpoint on the accounts as they are.
    pub fn checkpoint(&mut self) -> (mark: JournalCheckpoint)
        ensures
            mark.depth == old(self)@.checkpoints.len(),
            final(self)@ == old(self)@.with_checkpoint(),
    {
        let mark = JournalCheckpoint { depth: self.checkpoints.len() };
        let snapshot = clone_entries(&self.state);
        self.checkpoints.push(snapshot);
        proof {
            assert(self@.checkpoints =~= old(self)@.with_checkpoint().checkpoints);
        }
        mark
    }

    /// Closes the innermost checkpoint and keeps the accounts as they are.
    pub fn checkpoint_commit(&mut self)
        ensures
            final(self)@ == old(self)@.committed(),
    {
        if self.checkpoints.len() > 0 {
            self.checkpoints.pop();
            proof {
                assert(self@.checkpoints =~= old(self)@.committed().checkpoints);
            }
        }
    }

    /// Returns to the accounts as they were when `mark` was made, and
    /// closes that checkpoint with all that were opened after it.
    pub fn checkpoint_revert(&mut self, mark: JournalCheckpoint)
        ensures
            final(self)@ == old(self)@.reverted(mark.depth as nat),
    {
        if mark.depth < self.checkpoints.len() {
            self.checkpoints.truncate(mark.depth + 1);
            match self.checkpoints.pop() {
                Some(snapshot) => {
                    self.state = snapshot;
                },
                None => {},
            }
            proof {
                assert(self@.checkpoints =~= old(self)@.reverted(mark.depth as nat).checkpoints);
            }
        }
    }
}

} // verus!
