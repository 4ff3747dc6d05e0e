use irys_shadows::account::{Account, AccountDiff};
use irys_shadows::address::Address;
use irys_shadows::commitment::{Commitment, CommitmentStatus, LastTx, Stake};
use irys_shadows::operations::{
    apply_operation, data, mining_address_pledge, partition_pledge, partition_unpledge, slash,
    transfer, unpledge_all,
};
use irys_shadows::pledge::TxId;
use irys_shadows::receipt::ShadowResult;
use irys_shadows::shadow::{
    DataShadow, PartitionPledgeShadow, ShadowTxType, SlashShadow, TransferShadow,
    UnpledgeAllShadow,
};
use irys_shadows::uint256::UInt256;

fn n(x: u64) -> UInt256 {
    UInt256::from_u64(x)
}

fn max() -> UInt256 {
    UInt256::from_be_bytes([0xff; 32])
}

fn account(balance: UInt256) -> Account {
    let mut a = Account::empty();
    a.balance = balance;
    a
}

fn commitment(tag: u8, quantity: u64, status: CommitmentStatus) -> Commitment {
    Commitment {
        tx_id: TxId::new([tag; 32]),
        quantity: n(quantity),
        destination: TxId::new([tag; 32]),
        height: tag as u64,
        status,
    }
}

fn stake(quantity: u64, status: CommitmentStatus) -> Stake {
    Stake { tx_id: TxId::new([0xaa; 32]), quantity: n(quantity), height: 4, status }
}

#[test]
fn the_empty_account_holds_nothing() {
    let a = Account::empty();
    assert!(a.balance.is_zero());
    assert_eq!(a.nonce, 0);
    assert_eq!(a.code, None);
    assert_eq!(a.stake, None);
    assert_eq!(a.commitments, None);
    assert_eq!(a.last_tx, None);
    assert_eq!(a.mining_permission, None);
    assert_eq!(&a.code_hash[..4], &[0xc5, 0xd2, 0x46, 0x01]);
}

#[test]
fn checked_balance_changes_fail_rather_than_wrap() {
    let mut a = account(n(10));
    assert!(!a.checked_decrement_balance(&n(11)));
    assert_eq!(a.balance, n(10));
    assert!(a.checked_decrement_balance(&n(10)));
    assert_eq!(a.balance, n(0));
    assert!(a.checked_increment_balance(&max()));
    assert_eq!(a.balance, max());
    assert!(!a.checked_increment_balance(&n(1)));
    assert_eq!(a.balance, max());
    assert!(a.checked_increment_balance(&n(0)));
}

#[test]
fn data_takes_the_fee() {
    let mut a = account(n(100));
    assert_eq!(data(&mut a, &n(30)), ShadowResult::Success);
    assert_eq!(a.balance, n(70));
    assert_eq!(data(&mut a, &n(70)), ShadowResult::Success);
    assert_eq!(a.balance, n(0));
    assert_eq!(data(&mut a, &n(1)), ShadowResult::OutOfFunds);
    assert_eq!(a.balance, n(0));
    assert_eq!(data(&mut a, &n(0)), ShadowResult::Success);
}

#[test]
fn a_stake_is_made_once() {
    let id = TxId::new([1; 32]);
    let mut a = account(n(100));
    assert_eq!(mining_address_pledge(&mut a, &id, &n(101)), ShadowResult::OutOfFunds);
    assert_eq!(a.stake, None);
    assert_eq!(a.balance, n(100));
    assert_eq!(mining_address_pledge(&mut a, &id, &n(60)), ShadowResult::Success);
    assert_eq!(a.balance, n(40));
    assert_eq!(
        a.stake,
        Some(Stake { tx_id: id, quantity: n(60), height: 0, status: CommitmentStatus::Pending })
    );
    assert!(a.has_stake());
    // a second stake is refused before the balance is looked at
    assert_eq!(mining_address_pledge(&mut a, &id, &n(1000)), ShadowResult::AlreadyStaked);
    assert_eq!(mining_address_pledge(&mut a, &id, &n(1)), ShadowResult::AlreadyStaked);
    assert_eq!(a.balance, n(40));
}

#[test]
fn a_partition_is_pledged_once_whatever_the_status() {
    let id = TxId::new([1; 32]);
    let p = TxId::new([7; 32]);
    let pledge = PartitionPledgeShadow { quantity: n(5), part_hash: p, height: 10 };
    let mut a = account(n(12));
    assert_eq!(partition_pledge(&mut a, &id, &pledge), ShadowResult::Success);
    assert_eq!(a.balance, n(7));
    assert_eq!(
        a.commitments,
        Some(vec![Commitment {
            tx_id: id,
            quantity: n(5),
            destination: p,
            height: 10,
            status: CommitmentStatus::Pending,
        }])
    );
    assert_eq!(a.find_commitment(&p), Some(0));
    assert_eq!(a.find_active_commitment(&p), None);
    assert_eq!(partition_pledge(&mut a, &id, &pledge), ShadowResult::AlreadyPledged);
    for status in [CommitmentStatus::Active, CommitmentStatus::Inactive, CommitmentStatus::Slashed] {
        a.commitments.as_mut().unwrap()[0].status = status;
        assert_eq!(partition_pledge(&mut a, &id, &pledge), ShadowResult::AlreadyPledged);
    }
    assert_eq!(a.balance, n(7));
    // another partition, and the balance decides
    let other = PartitionPledgeShadow { quantity: n(8), part_hash: TxId::new([8; 32]), height: 11 };
    assert_eq!(partition_pledge(&mut a, &id, &other), ShadowResult::OutOfFunds);
    assert_eq!(a.commitments.as_ref().unwrap().len(), 1);
    let other = PartitionPledgeShadow { quantity: n(7), part_hash: TxId::new([8; 32]), height: 11 };
    assert_eq!(partition_pledge(&mut a, &id, &other), ShadowResult::Success);
    assert_eq!(a.commitments.as_ref().unwrap().len(), 2);
    assert_eq!(a.find_commitment(&TxId::new([8; 32])), Some(1));
    assert_eq!(a.balance, n(0));
}

#[test]
fn a_duplicate_pledge_is_refused_before_the_balance_is_looked_at() {
    let p = TxId::new([7; 32]);
    let mut a = account(n(1));
    a.commitments = Some(vec![commitment(7, 3, CommitmentStatus::Pending)]);
    let pledge = PartitionPledgeShadow { quantity: n(500), part_hash: p, height: 10 };
    assert_eq!(partition_pledge(&mut a, &TxId::new([1; 32]), &pledge), ShadowResult::AlreadyPledged);
}

#[test]
fn unpledge_refunds_the_first_active_commitment() {
    let mut a = account(n(1));
    assert_eq!(partition_unpledge(&mut a, &TxId::new([7; 32])), ShadowResult::NoPledges);
    a.commitments = Some(vec![]);
    assert_eq!(partition_unpledge(&mut a, &TxId::new([7; 32])), ShadowResult::NoPledges);
    assert_eq!(a.commitments, Some(vec![]));
    a.commitments = Some(vec![
        commitment(7, 10, CommitmentStatus::Pending),
        commitment(8, 20, CommitmentStatus::Active),
        commitment(7, 30, CommitmentStatus::Active),
        commitment(7, 40, CommitmentStatus::Active),
    ]);
    assert_eq!(partition_unpledge(&mut a, &TxId::new([6; 32])), ShadowResult::NoMatchingPledge);
    assert_eq!(a.balance, n(1));
    assert_eq!(partition_unpledge(&mut a, &TxId::new([7; 32])), ShadowResult::Success);
    assert_eq!(a.balance, n(31));
    let statuses: Vec<CommitmentStatus> =
        a.commitments.as_ref().unwrap().iter().map(|c| c.status).collect();
    assert_eq!(
        statuses,
        vec![
            CommitmentStatus::Pending,
            CommitmentStatus::Active,
            CommitmentStatus::Inactive,
            CommitmentStatus::Active
        ]
    );
    assert_eq!(partition_unpledge(&mut a, &TxId::new([7; 32])), ShadowResult::Success);
    assert_eq!(a.balance, n(71));
    // the pending one is no match
    assert_eq!(partition_unpledge(&mut a, &TxId::new([7; 32])), ShadowResult::NoMatchingPledge);
    assert_eq!(a.balance, n(71));
}

#[test]
fn unpledge_that_would_overflow_changes_nothing() {
    let mut a = account(max());
    a.commitments = Some(vec![commitment(7, 1, CommitmentStatus::Active)]);
    let before = a.clone();
    assert_eq!(partition_unpledge(&mut a, &TxId::new([7; 32])), ShadowResult::OverflowPayment);
    assert_eq!(a, before);
}

#[test]
fn unpledge_all_refunds_what_is_active() {
    let mut a = account(n(1));
    a.stake = Some(stake(100, CommitmentStatus::Active));
    a.commitments = Some(vec![
        commitment(1, 10, CommitmentStatus::Pending),
        commitment(2, 20, CommitmentStatus::Active),
        commitment(3, 30, CommitmentStatus::Inactive),
        commitment(4, 40, CommitmentStatus::Slashed),
        commitment(5, 50, CommitmentStatus::Active),
    ]);
    assert_eq!(unpledge_all(&mut a), ShadowResult::Success);
    assert_eq!(a.balance, n(1 + 100 + 20 + 50));
    assert_eq!(a.stake.unwrap().status, CommitmentStatus::Inactive);
    let statuses: Vec<CommitmentStatus> =
        a.commitments.as_ref().unwrap().iter().map(|c| c.status).collect();
    assert_eq!(
        statuses,
        vec![
            CommitmentStatus::Pending,
            CommitmentStatus::Inactive,
            CommitmentStatus::Inactive,
            CommitmentStatus::Slashed,
            CommitmentStatus::Inactive
        ]
    );
    // nothing is active any longer
    assert_eq!(unpledge_all(&mut a), ShadowResult::Success);
    assert_eq!(a.balance, n(171));
}

#[test]
fn unpledge_all_leaves_a_stake_that_is_not_active() {
    let mut a = account(n(1));
    a.stake = Some(stake(100, CommitmentStatus::Pending));
    assert_eq!(unpledge_all(&mut a), ShadowResult::Success);
    assert_eq!(a.balance, n(1));
    assert_eq!(a.stake.unwrap().status, CommitmentStatus::Pending);
    assert_eq!(unpledge_all(&mut Account::empty()), ShadowResult::Success);
}

#[test]
fn unpledge_all_makes_no_refund_alone() {
    // the stake fits, the last commitment does not
    let mut high = [0xff; 32];
    high[31] = 0xf0;
    let mut a = account(UInt256::from_be_bytes(high));
    a.stake = Some(stake(5, CommitmentStatus::Active));
    a.commitments = Some(vec![
        commitment(1, 5, CommitmentStatus::Active),
        commitment(2, 6, CommitmentStatus::Active),
    ]);
    let before = a.clone();
    assert_eq!(unpledge_all(&mut a), ShadowResult::OverflowPayment);
    assert_eq!(a, before);
    // one less and all of them fit
    a.commitments.as_mut().unwrap()[1].quantity = n(5);
    assert_eq!(unpledge_all(&mut a), ShadowResult::Success);
    assert_eq!(a.balance, max());
}

#[test]
fn slash_marks_what_is_active_and_keeps_the_balance() {
    let mut a = account(n(9));
    a.stake = Some(stake(100, CommitmentStatus::Active));
    a.commitments = Some(vec![
        commitment(1, 10, CommitmentStatus::Pending),
        commitment(2, 20, CommitmentStatus::Active),
        commitment(3, 30, CommitmentStatus::Inactive),
    ]);
    assert_eq!(slash(&mut a), ShadowResult::Success);
    assert_eq!(a.balance, n(9));
    assert_eq!(a.stake.unwrap().status, CommitmentStatus::Slashed);
    let statuses: Vec<CommitmentStatus> =
        a.commitments.as_ref().unwrap().iter().map(|c| c.status).collect();
    assert_eq!(
        statuses,
        vec![CommitmentStatus::Pending, CommitmentStatus::Slashed, CommitmentStatus::Inactive]
    );
}

#[test]
fn slash_twice_is_slash_once() {
    let mut a = account(n(9));
    a.stake = Some(stake(100, CommitmentStatus::Slashed));
    a.commitments = Some(vec![commitment(2, 20, CommitmentStatus::Active)]);
    assert_eq!(slash(&mut a), ShadowResult::Success);
    assert_eq!(a.stake.unwrap().status, CommitmentStatus::Slashed);
    let once = a.clone();
    assert_eq!(slash(&mut a), ShadowResult::Success);
    assert_eq!(a, once);
    // a slashed stake is not refunded
    assert_eq!(unpledge_all(&mut a), ShadowResult::Success);
    assert_eq!(a.balance, n(9));
}

#[test]
fn status_transitions_follow_the_life_cycle() {
    let all = [
        CommitmentStatus::Pending,
        CommitmentStatus::Active,
        CommitmentStatus::Inactive,
        CommitmentStatus::Slashed,
    ];
    for from in all {
        for to in all {
            let expected = match (from, to) {
                (CommitmentStatus::Pending, CommitmentStatus::Active)
                | (CommitmentStatus::Active, CommitmentStatus::Inactive)
                | (CommitmentStatus::Active, CommitmentStatus::Slashed) => to,
                _ => from,
            };
            assert_eq!(from.transition(to), expected);
            assert_eq!(from.transition(to).transition(to), from.transition(to));
        }
    }
    assert!(CommitmentStatus::Active.is_active());
    assert!(!CommitmentStatus::Pending.is_active());
    let mut s = stake(1, CommitmentStatus::Active);
    s.update_status(CommitmentStatus::Slashed);
    s.update_status(CommitmentStatus::Inactive);
    assert_eq!(s.status, CommitmentStatus::Slashed);
    let mut c = commitment(1, 1, CommitmentStatus::Pending);
    c.update_status(CommitmentStatus::Inactive);
    assert_eq!(c.status, CommitmentStatus::Pending);
    c.update_status(CommitmentStatus::Active);
    c.update_status(CommitmentStatus::Inactive);
    c.update_status(CommitmentStatus::Slashed);
    assert_eq!(c.status, CommitmentStatus::Inactive);
}

#[test]
fn transfer_checks_the_sender_then_the_receiver() {
    let mut sender = account(n(100));
    let (to, result) = transfer(&mut sender, Some(account(n(5))), &n(101));
    assert_eq!(result, ShadowResult::OutOfFunds);
    assert_eq!(sender.balance, n(100));
    assert_eq!(to.unwrap().balance, n(5));

    let (to, result) = transfer(&mut sender, Some(account(max())), &n(1));
    assert_eq!(result, ShadowResult::OverflowPayment);
    assert_eq!(sender.balance, n(100));
    assert_eq!(to.unwrap().balance, max());

    // both fail: out of funds comes first
    let (_, result) = transfer(&mut sender, Some(account(max())), &n(101));
    assert_eq!(result, ShadowResult::OutOfFunds);

    let (to, result) = transfer(&mut sender, Some(account(n(5))), &n(100));
    assert_eq!(result, ShadowResult::Success);
    assert_eq!(sender.balance, n(0));
    assert_eq!(to.unwrap().balance, n(105));
}

#[test]
fn a_transfer_to_oneself_keeps_the_balance() {
    let mut a = account(n(100));
    let (to, result) = transfer(&mut a, None, &n(40));
    assert_eq!((to, result), (None, ShadowResult::Success));
    assert_eq!(a.balance, n(100));
    let (_, result) = transfer(&mut a, None, &n(101));
    assert_eq!(result, ShadowResult::OutOfFunds);
    let mut rich = account(max());
    let (_, result) = transfer(&mut rich, None, &n(1));
    assert_eq!(result, ShadowResult::OverflowPayment);
    assert_eq!(rich.balance, max());
}

#[test]
fn a_diff_writes_only_what_it_holds() {
    let mut a = account(n(100));
    a.nonce = 3;
    a.stake = Some(stake(1, CommitmentStatus::Active));
    a.last_tx = Some(LastTx::TxId(TxId::new([1; 32])));
    a.code = Some(vec![1, 2, 3]);
    let before = a.clone();
    let nothing = AccountDiff {
        balance: None,
        nonce: None,
        stake: None,
        commitments: None,
        last_tx: None,
        mining_permission: None,
    };
    a.apply_diff(&nothing);
    assert_eq!(a, before);

    let some = AccountDiff {
        balance: Some(max()),
        nonce: None,
        stake: Some(None),
        commitments: Some(Some(vec![commitment(1, 1, CommitmentStatus::Active)])),
        last_tx: None,
        mining_permission: Some(true),
    };
    a.apply_diff(&some);
    assert_eq!(a.balance, max());
    assert_eq!(a.nonce, 3);
    assert_eq!(a.stake, None);
    assert_eq!(a.commitments, Some(vec![commitment(1, 1, CommitmentStatus::Active)]));
    assert_eq!(a.last_tx, before.last_tx);
    assert_eq!(a.mining_permission, Some(true));
    assert_eq!(a.code, before.code);
    assert_eq!(a.code_hash, before.code_hash);

    let more = AccountDiff {
        balance: None,
        nonce: Some(9),
        stake: Some(Some(stake(2, CommitmentStatus::Pending))),
        commitments: Some(None),
        last_tx: Some(None),
        mining_permission: Some(false),
    };
    a.apply_diff(&more);
    assert_eq!(a.balance, max());
    assert_eq!(a.nonce, 9);
    assert_eq!(a.stake, Some(stake(2, CommitmentStatus::Pending)));
    assert_eq!(a.commitments, None);
    assert_eq!(a.last_tx, None);
    assert_eq!(a.mining_permission, Some(false));
}

#[test]
fn success_records_the_transaction_except_for_a_diff() {
    let id = TxId::new([0x42; 32]);
    let ops = vec![
        ShadowTxType::Null,
        ShadowTxType::Data(DataShadow { fee: n(1) }),
        ShadowTxType::UnpledgeAll(UnpledgeAllShadow {}),
        ShadowTxType::Slash(SlashShadow { slashed_addr: Address::new([0; 20]) }),
        ShadowTxType::Transfer(TransferShadow { to: Address::new([0; 20]), amount: n(1) }),
    ];
    for op in ops {
        let applied = apply_operation(account(n(10)), None, &id, &op);
        assert_eq!(applied.result, ShadowResult::Success);
        assert_eq!(applied.primary.last_tx, Some(LastTx::TxId(id)));
    }
    let failing = ShadowTxType::Data(DataShadow { fee: n(11) });
    let applied = apply_operation(account(n(10)), None, &id, &failing);
    assert_eq!(applied.result, ShadowResult::OutOfFunds);
    assert_eq!(applied.primary, account(n(10)));

    let diff = ShadowTxType::Diff(AccountDiff {
        balance: Some(n(1)),
        nonce: None,
        stake: None,
        commitments: None,
        last_tx: None,
        mining_permission: None,
    });
    let applied = apply_operation(account(n(10)), None, &id, &diff);
    assert_eq!(applied.result, ShadowResult::Success);
    assert_eq!(applied.primary.balance, n(1));
    assert_eq!(applied.primary.last_tx, None);

    let own = TxId::new([0x43; 32]);
    let diff = ShadowTxType::Diff(AccountDiff {
        balance: None,
        nonce: None,
        stake: None,
        commitments: None,
        last_tx: Some(Some(LastTx::TxId(own))),
        mining_permission: None,
    });
    let applied = apply_operation(account(n(10)), None, &id, &diff);
    assert_eq!(applied.primary.last_tx, Some(LastTx::TxId(own)));
}

#[test]
fn a_transfer_conserves_the_two_balances() {
    let id = TxId::new([0x42; 32]);
    for (from, to, amount) in [(100u64, 7u64, 40u64), (100, 7, 100), (100, 7, 101), (0, 0, 0)] {
        let op = ShadowTxType::Transfer(TransferShadow { to: Address::new([9; 20]), amount: n(amount) });
        let applied = apply_operation(account(n(from)), Some(account(n(to))), &id, &op);
        let sum = applied
            .primary
            .balance
            .checked_add(&applied.receiver.as_ref().unwrap().balance)
            .unwrap();
        assert_eq!(sum, n(from + to));
        if applied.result != ShadowResult::Success {
            assert_eq!(applied.primary, account(n(from)));
            assert_eq!(applied.receiver, Some(account(n(to))));
        }
    }
}
