use irys_shadows::account::{Account, AccountDiff};
use irys_shadows::address::Address;
use irys_shadows::commitment::LastTx;
use irys_shadows::journaled_state::{Database, JournaledState};
use irys_shadows::pledge::TxId;
use irys_shadows::receipt::ShadowResult;
use irys_shadows::shadow::{
    DataShadow, MiningAddressPledgeShadow, ShadowTx, ShadowTxType, Shadows, TransferShadow,
};
use irys_shadows::state_change::{
    apply_block_shadows, apply_loaded_shadow, apply_shadow, simulate_apply_shadow,
    simulate_apply_shadow_thin, Evm,
};
use irys_shadows::uint256::UInt256;

/// A backend that holds a list of accounts, fails for one address, and
/// counts how often it is asked.
struct ListDb {
    accounts: Vec<(Address, Account)>,
    broken: Option<Address>,
    asked: usize,
}

impl ListDb {
    fn new(accounts: Vec<(Address, Account)>) -> Self {
        ListDb { accounts, broken: None, asked: 0 }
    }
}

impl Database for ListDb {
    type Error = String;

    fn basic(&mut self, address: &Address) -> Result<Option<Account>, String> {
        self.asked += 1;
        if self.broken == Some(*address) {
            return Err(format!("cannot read {:?}", address.0[0]));
        }
        for (a, account) in self.accounts.iter() {
            if a == address {
                return Ok(Some(account.clone()));
            }
        }
        Ok(None)
    }
}

fn n(x: u64) -> UInt256 {
    UInt256::from_u64(x)
}

fn addr(tag: u8) -> Address {
    Address::new([tag; 20])
}

fn account(balance: u64) -> Account {
    let mut a = Account::empty();
    a.balance = n(balance);
    a
}

fn transfer(id: u8, from: u8, to: u8, amount: u64) -> ShadowTx {
    ShadowTx {
        tx_id: TxId::new([id; 32]),
        address: addr(from),
        tx: ShadowTxType::Transfer(TransferShadow { to: addr(to), amount: n(amount) }),
    }
}

fn fee(id: u8, from: u8, amount: u64) -> ShadowTx {
    ShadowTx {
        tx_id: TxId::new([id; 32]),
        address: addr(from),
        tx: ShadowTxType::Data(DataShadow { fee: n(amount) }),
    }
}

fn balance_of(ledger: &JournaledState, tag: u8) -> UInt256 {
    ledger.account(&addr(tag)).unwrap().balance
}

#[test]
fn a_ledger_starts_empty() {
    let ledger = JournaledState::new();
    assert!(!ledger.is_loaded(&addr(1)));
    assert!(!ledger.is_touched(&addr(1)));
    assert_eq!(ledger.account(&addr(1)), None);
    assert_eq!(ledger.depth(), 0);
}

#[test]
fn loading_asks_the_backend_once() {
    let mut db = ListDb::new(vec![(addr(1), account(5))]);
    let mut ledger = JournaledState::new();
    assert_eq!(ledger.load_account(&addr(1), &mut db), Ok(()));
    assert_eq!(ledger.load_account(&addr(1), &mut db), Ok(()));
    assert_eq!(db.asked, 1);
    assert!(ledger.is_loaded(&addr(1)));
    assert!(!ledger.is_touched(&addr(1)));
    assert_eq!(balance_of(&ledger, 1), n(5));
    // an address that the backend does not know is the empty account
    assert_eq!(ledger.load_account(&addr(2), &mut db), Ok(()));
    assert_eq!(ledger.account(&addr(2)), Some(Account::empty()));
    // a backend error loads nothing
    db.broken = Some(addr(3));
    assert!(ledger.load_account(&addr(3), &mut db).is_err());
    assert!(!ledger.is_loaded(&addr(3)));
}

#[test]
fn a_loaded_account_is_not_replaced_by_an_answer() {
    let mut ledger = JournaledState::new();
    assert_eq!(ledger.load_account_with::<String>(&addr(1), Ok(Some(account(5)))), Ok(()));
    assert_eq!(ledger.load_account_with::<String>(&addr(1), Ok(Some(account(6)))), Ok(()));
    assert_eq!(ledger.load_account_with(&addr(1), Err("gone".to_string())), Ok(()));
    assert_eq!(balance_of(&ledger, 1), n(5));
    assert_eq!(ledger.load_account_with(&addr(2), Err("gone".to_string())), Err("gone".to_string()));
    assert!(!ledger.is_loaded(&addr(2)));
    assert_eq!(ledger.load_account_with::<String>(&addr(2), Ok(None)), Ok(()));
    assert_eq!(ledger.account(&addr(2)), Some(Account::empty()));
}

#[test]
fn touching_and_writing_mark_the_account() {
    let mut ledger = JournaledState::new();
    ledger.touch(&addr(1));
    assert!(!ledger.is_loaded(&addr(1)));
    ledger.load_account_with::<String>(&addr(1), Ok(Some(account(5)))).unwrap();
    assert!(!ledger.is_touched(&addr(1)));
    ledger.touch(&addr(1));
    assert!(ledger.is_touched(&addr(1)));
    assert_eq!(balance_of(&ledger, 1), n(5));
    ledger.set_account(&addr(2), account(8));
    assert!(ledger.is_touched(&addr(2)));
    ledger.set_account(&addr(1), account(9));
    assert_eq!(balance_of(&ledger, 1), n(9));
    assert_eq!(balance_of(&ledger, 2), n(8));
}

#[test]
fn the_entries_are_the_loaded_accounts() {
    let mut ledger = JournaledState::new();
    assert!(ledger.entries().is_empty());
    ledger.load_account_with::<String>(&addr(1), Ok(Some(account(5)))).unwrap();
    ledger.set_account(&addr(2), account(8));
    ledger.set_account(&addr(1), account(6));
    let entries = ledger.entries();
    assert_eq!(entries.len(), 2);
    assert_eq!((entries[0].address, entries[0].touched), (addr(1), true));
    assert_eq!(entries[0].account, account(6));
    assert_eq!((entries[1].address, entries[1].touched), (addr(2), true));
}

#[test]
fn a_checkpoint_is_returned_to_or_kept() {
    let mut ledger = JournaledState::new();
    ledger.set_account(&addr(1), account(1));
    let outer = ledger.checkpoint();
    assert_eq!(outer.depth, 0);
    ledger.set_account(&addr(1), account(2));
    let inner = ledger.checkpoint();
    assert_eq!(inner.depth, 1);
    assert_eq!(ledger.depth(), 2);
    ledger.set_account(&addr(1), account(3));
    ledger.set_account(&addr(2), account(3));
    ledger.checkpoint_revert(inner);
    assert_eq!(ledger.depth(), 1);
    assert_eq!(balance_of(&ledger, 1), n(2));
    assert!(!ledger.is_loaded(&addr(2)));
    // a mark that is no longer open changes nothing
    ledger.checkpoint_revert(inner);
    assert_eq!(balance_of(&ledger, 1), n(2));
    assert_eq!(ledger.depth(), 1);
    ledger.set_account(&addr(1), account(4));
    ledger.checkpoint_commit();
    assert_eq!(ledger.depth(), 0);
    assert_eq!(balance_of(&ledger, 1), n(4));
    ledger.checkpoint_commit();
    assert_eq!(ledger.depth(), 0);
    assert_eq!(balance_of(&ledger, 1), n(4));
}

#[test]
fn reverting_an_outer_checkpoint_closes_the_inner_ones() {
    let mut ledger = JournaledState::new();
    ledger.set_account(&addr(1), account(1));
    let outer = ledger.checkpoint();
    ledger.set_account(&addr(1), account(2));
    ledger.checkpoint();
    ledger.set_account(&addr(1), account(3));
    ledger.checkpoint_revert(outer);
    assert_eq!(ledger.depth(), 0);
    assert_eq!(balance_of(&ledger, 1), n(1));
}

#[test]
fn a_transaction_on_unloaded_accounts_is_not_applied_without_the_backend() {
    let mut ledger = JournaledState::new();
    assert_eq!(apply_loaded_shadow(fee(1, 1, 1), &mut ledger), None);
    ledger.set_account(&addr(1), account(10));
    // the receiver is missing
    assert_eq!(apply_loaded_shadow(transfer(1, 1, 2, 1), &mut ledger), None);
    assert_eq!(balance_of(&ledger, 1), n(10));
    let receipt = apply_loaded_shadow(fee(1, 1, 1), &mut ledger).unwrap();
    assert_eq!(receipt.result, ShadowResult::Success);
    assert_eq!(balance_of(&ledger, 1), n(9));
}

#[test]
fn a_transfer_to_oneself_succeeds_and_keeps_the_balance() {
    let mut db = ListDb::new(vec![(addr(1), account(100))]);
    let mut ledger = JournaledState::new();
    let receipt = apply_shadow(transfer(9, 1, 1, 40), &mut ledger, &mut db).unwrap();
    assert_eq!(receipt.result, ShadowResult::Success);
    assert_eq!(balance_of(&ledger, 1), n(100));
    assert_eq!(ledger.account(&addr(1)).unwrap().last_tx, Some(LastTx::TxId(TxId::new([9; 32]))));
    assert_eq!(db.asked, 1);
}

#[test]
fn a_soft_failure_touches_but_does_not_change() {
    let mut db = ListDb::new(vec![(addr(1), account(10)), (addr(2), account(3))]);
    let mut ledger = JournaledState::new();
    let receipt = apply_shadow(transfer(9, 1, 2, 11), &mut ledger, &mut db).unwrap();
    assert_eq!(receipt.result, ShadowResult::OutOfFunds);
    assert_eq!(ledger.account(&addr(1)), Some(account(10)));
    assert_eq!(ledger.account(&addr(2)), Some(account(3)));
    assert!(ledger.is_touched(&addr(1)));
    assert!(ledger.is_touched(&addr(2)));
}

#[test]
fn a_receipt_names_the_transaction_and_holds_its_operation() {
    let mut db = ListDb::new(vec![(addr(1), account(10))]);
    let mut ledger = JournaledState::new();
    let shadow = fee(7, 1, 4);
    let receipt = apply_shadow(shadow.clone(), &mut ledger, &mut db).unwrap();
    assert_eq!(receipt.tx_id, shadow.tx_id);
    assert_eq!(receipt.tx_type, shadow.tx);
    assert_eq!(receipt.clone(), receipt);
}

#[test]
fn a_block_is_applied_in_order() {
    // the second transfer spends what the first one brought
    let db = ListDb::new(vec![(addr(1), account(100))]);
    let mut evm = Evm { journaled_state: JournaledState::new(), db };
    let shadows = Shadows::new(vec![
        transfer(1, 1, 2, 60),
        transfer(2, 2, 3, 50),
        transfer(3, 2, 3, 50),
        fee(4, 3, 50),
    ]);
    let receipts = apply_block_shadows(Some(&shadows), &mut evm).unwrap().unwrap();
    let results: Vec<ShadowResult> = receipts.iter().map(|r| r.result).collect();
    assert_eq!(
        results,
        vec![
            ShadowResult::Success,
            ShadowResult::Success,
            ShadowResult::OutOfFunds,
            ShadowResult::Success
        ]
    );
    for (i, receipt) in receipts.iter().enumerate() {
        assert_eq!(receipt.tx_id, shadows.get(i).tx_id);
        assert_eq!(receipt.tx_type, shadows.get(i).tx);
    }
    assert_eq!(balance_of(&evm.journaled_state, 1), n(40));
    assert_eq!(balance_of(&evm.journaled_state, 2), n(10));
    assert_eq!(balance_of(&evm.journaled_state, 3), n(0));
    assert_eq!(evm.journaled_state.depth(), 0);
    assert_eq!(evm.db.asked, 3);
}

#[test]
fn no_shadows_and_an_empty_block() {
    let db = ListDb::new(vec![]);
    let mut evm = Evm { journaled_state: JournaledState::new(), db };
    assert_eq!(apply_block_shadows(None, &mut evm), Ok(None));
    let empty = Shadows::new(vec![]);
    assert_eq!(apply_block_shadows(Some(&empty), &mut evm), Ok(Some(vec![])));
    assert_eq!(evm.db.asked, 0);
    assert_eq!(evm.journaled_state.depth(), 0);
}

#[test]
fn a_backend_error_rolls_the_whole_block_back() {
    let mut db = ListDb::new(vec![(addr(1), account(100)), (addr(2), account(5))]);
    db.broken = Some(addr(3));
    let mut ledger = JournaledState::new();
    ledger.set_account(&addr(9), account(1));
    let mark = ledger.checkpoint();
    let mut evm = Evm { journaled_state: ledger, db };
    let shadows = Shadows::new(vec![
        transfer(1, 1, 2, 60),
        fee(2, 2, 1),
        transfer(3, 1, 3, 1),
        fee(4, 1, 1),
    ]);
    let result = apply_block_shadows(Some(&shadows), &mut evm);
    assert_eq!(result, Err("cannot read 3".to_string()));
    // nothing of the first two transactions is left
    assert!(!evm.journaled_state.is_loaded(&addr(1)));
    assert!(!evm.journaled_state.is_loaded(&addr(2)));
    assert!(!evm.journaled_state.is_loaded(&addr(3)));
    assert_eq!(evm.journaled_state.account(&addr(9)), Some(account(1)));
    // the caller's own checkpoint is still open
    assert_eq!(evm.journaled_state.depth(), 1);
    assert_eq!(mark.depth, 0);
    // the fourth transaction was not tried
    assert_eq!(evm.db.asked, 3);
}

#[test]
fn a_backend_error_on_the_primary_account_ends_the_block() {
    let mut db = ListDb::new(vec![(addr(1), account(100))]);
    db.broken = Some(addr(2));
    let mut evm = Evm { journaled_state: JournaledState::new(), db };
    let shadows = Shadows::new(vec![fee(1, 1, 1), fee(2, 2, 1)]);
    assert!(apply_block_shadows(Some(&shadows), &mut evm).is_err());
    assert!(!evm.journaled_state.is_loaded(&addr(1)));
    assert_eq!(evm.journaled_state.depth(), 0);
}

#[test]
fn a_block_on_loaded_accounts_does_not_ask_the_backend() {
    let mut db = ListDb::new(vec![]);
    db.broken = Some(addr(1));
    let mut ledger = JournaledState::new();
    ledger.set_account(&addr(1), account(10));
    ledger.set_account(&addr(2), account(0));
    let mut evm = Evm { journaled_state: ledger, db };
    let shadows = Shadows::new(vec![transfer(1, 1, 2, 4), fee(2, 2, 4)]);
    let receipts = apply_block_shadows(Some(&shadows), &mut evm).unwrap().unwrap();
    assert_eq!(receipts.len(), 2);
    assert_eq!(evm.db.asked, 0);
    assert_eq!(balance_of(&evm.journaled_state, 1), n(6));
    assert_eq!(balance_of(&evm.journaled_state, 2), n(0));
}

#[test]
fn a_simulation_leaves_the_ledger_as_it_was() {
    let mut db = ListDb::new(vec![(addr(1), account(100)), (addr(2), account(5))]);
    let mut ledger = JournaledState::new();
    ledger.set_account(&addr(1), account(100));
    // success
    let receipt = simulate_apply_shadow_thin(transfer(1, 1, 2, 60), &mut ledger, &mut db).unwrap();
    assert_eq!(receipt.result, ShadowResult::Success);
    assert_eq!(ledger.account(&addr(1)), Some(account(100)));
    assert!(!ledger.is_loaded(&addr(2)));
    assert_eq!(ledger.depth(), 0);
    // soft failure
    let receipt = simulate_apply_shadow_thin(fee(2, 1, 101), &mut ledger, &mut db).unwrap();
    assert_eq!(receipt.result, ShadowResult::OutOfFunds);
    assert_eq!(ledger.account(&addr(1)), Some(account(100)));
    // backend error
    db.broken = Some(addr(3));
    assert!(simulate_apply_shadow_thin(transfer(3, 1, 3, 1), &mut ledger, &mut db).is_err());
    assert_eq!(ledger.account(&addr(1)), Some(account(100)));
    assert!(!ledger.is_loaded(&addr(3)));
    assert_eq!(ledger.depth(), 0);

    let mut evm = Evm { journaled_state: ledger, db };
    let stake = ShadowTx {
        tx_id: TxId::new([4; 32]),
        address: addr(1),
        tx: ShadowTxType::MiningAddressPledge(MiningAddressPledgeShadow { value: n(10) }),
    };
    let receipt = simulate_apply_shadow(stake, &mut evm).unwrap();
    assert_eq!(receipt.result, ShadowResult::Success);
    assert_eq!(evm.journaled_state.account(&addr(1)), Some(account(100)));
}

#[test]
fn a_diff_overwrites_the_account_in_the_ledger() {
    let mut db = ListDb::new(vec![(addr(1), account(100))]);
    let mut ledger = JournaledState::new();
    let shadow = ShadowTx {
        tx_id: TxId::new([4; 32]),
        address: addr(1),
        tx: ShadowTxType::Diff(AccountDiff {
            balance: Some(n(7)),
            nonce: Some(2),
            stake: None,
            commitments: None,
            last_tx: None,
            mining_permission: None,
        }),
    };
    let receipt = apply_shadow(shadow, &mut ledger, &mut db).unwrap();
    assert_eq!(receipt.result, ShadowResult::Success);
    let after = ledger.account(&addr(1)).unwrap();
    assert_eq!(after.balance, n(7));
    assert_eq!(after.nonce, 2);
    assert_eq!(after.last_tx, None);
}
