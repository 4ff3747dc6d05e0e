use irys_shadows::address::Address;
use irys_shadows::balance_increments::{
    block_reward, ommer_reward, post_block_balance_increments, Block, Ommer, Withdrawal,
};

const ETHER: u128 = 1_000_000_000_000_000_000;

#[test]
fn an_ommer_earns_an_eighth_less_with_each_generation() {
    assert_eq!(ommer_reward(2 * ETHER, 10, 9), 7 * 2 * ETHER / 8);
    assert_eq!(ommer_reward(2 * ETHER, 10, 8), 6 * 2 * ETHER / 8);
    assert_eq!(ommer_reward(2 * ETHER, 10, 3), 2 * ETHER / 8);
    assert_eq!(ommer_reward(2 * ETHER, 10, 2), 0);
    assert_eq!(ommer_reward(0, 10, 9), 0);
    assert_eq!(ommer_reward(3, 10, 9), 2);
}

#[test]
fn a_block_earns_a_thirtysecond_more_for_each_ommer() {
    assert_eq!(block_reward(2 * ETHER, 0), 2 * ETHER);
    assert_eq!(block_reward(2 * ETHER, 1), 2 * ETHER + 2 * ETHER / 32);
    assert_eq!(block_reward(2 * ETHER, 2), 2 * ETHER + 2 * (2 * ETHER / 32));
    assert_eq!(block_reward(31, 5), 31);
    assert_eq!(block_reward(0, 5), 0);
}

fn block() -> Block {
    Block {
        number: 10,
        beneficiary: Address::from([1; 20]),
        timestamp: 1000,
        ommers: vec![
            Ommer { beneficiary: Address::from([2; 20]), number: 9 },
            Ommer { beneficiary: Address::from([1; 20]), number: 8 },
        ],
        withdrawals: Some(vec![
            Withdrawal { address: Address::from([2; 20]), amount: 4, index: 0, validator_index: 0 },
            Withdrawal { address: Address::from([3; 20]), amount: 0, index: 1, validator_index: 0 },
            Withdrawal { address: Address::from([4; 20]), amount: 1, index: 2, validator_index: 0 },
        ]),
    }
}

#[test]
fn rewards_and_withdrawals_are_collected_by_address() {
    let increments = post_block_balance_increments(Some(2 * ETHER), true, &block());
    assert_eq!(increments.len(), 3);
    let miner = 6 * 2 * ETHER / 8 + 2 * ETHER + 2 * (2 * ETHER / 32);
    assert_eq!(increments.get(&Address::from([1; 20])), Some(miner));
    assert_eq!(increments.get(&Address::from([2; 20])), Some(7 * 2 * ETHER / 8 + 4_000_000_000));
    assert_eq!(increments.get(&Address::from([3; 20])), None);
    assert_eq!(increments.get(&Address::from([4; 20])), Some(1_000_000_000));
}

#[test]
fn without_a_base_reward_only_withdrawals_count() {
    let increments = post_block_balance_increments(None, true, &block());
    assert_eq!(increments.len(), 2);
    assert_eq!(increments.get(&Address::from([1; 20])), None);
    assert_eq!(increments.get(&Address::from([2; 20])), Some(4_000_000_000));
    assert_eq!(increments.get(&Address::from([4; 20])), Some(1_000_000_000));
}

#[test]
fn without_withdrawals_in_force_only_rewards_count() {
    let increments = post_block_balance_increments(Some(2 * ETHER), false, &block());
    assert_eq!(increments.len(), 2);
    assert_eq!(increments.get(&Address::from([2; 20])), Some(7 * 2 * ETHER / 8));
    let mut bare = block();
    bare.withdrawals = None;
    bare.ommers.clear();
    let increments = post_block_balance_increments(Some(2 * ETHER), true, &bare);
    assert_eq!(increments.len(), 1);
    assert_eq!(increments.get(&Address::from([1; 20])), Some(2 * ETHER));
    assert!(post_block_balance_increments(None, false, &block()).is_empty());
}
