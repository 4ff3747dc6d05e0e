//! The balance increments that a block's withdrawals bring.

use vstd::prelude::*;
use crate::address::Address;

verus! {

/// The number of wei in one gwei.
pub const GWEI_TO_WEI: u64 = 1_000_000_000;

/// When a change of the rules comes into force.
#[derive(Clone, Copy, Debug, PartialEq, Eq, Structural)]
pub enum ForkCondition {
    /// From the block of this number on.
    Block(u64),
    /// From this timestamp on.
    Timestamp(u64),
    /// Never.
    Never,
}

impl ForkCondition {
    /// Whether a change that is bound to a timestamp is in force at
    /// `timestamp`.
    pub open spec fn spec_active_at_timestamp(self, timestamp: u64) -> bool {
        self matches ForkCondition::Timestamp(time) && timestamp >= time
    }

    /// Whether a change that is bound to a timestamp is in force at
    /// `timestamp`. A change that is bound to a block number, or that never
    /// comes, is not.
    pub fn active_at_timestamp(&self, timestamp: u64) -> (r: bool)
        ensures
            r == self.spec_active_at_timestamp(timestamp),
    {
        match self {
            ForkCondition::Timestamp(time) => timestamp >= *time,
            _ => false,
        }
    }
}

/// A withdrawal that the consensus layer hands to a block.
#[derive(Clone, Copy, Debug, PartialEq, Eq)]
pub struct Withdrawal {
    /// The number of the withdrawal, which grows from one to the next.
    pub index: u64,
    /// The validator that withdraws.
    pub validator_index: u64,
    /// The address that receives the amount.
    pub address: Address,
    /// The amount, in gwei.
    pub amount: u64,
}

impl Withdrawal {
    /// The amount in wei.
    pub open spec fn spec_amount_wei(self) -> nat {
        (self.amount * GWEI_TO_WEI) as nat
    }

    /// The amount in wei.
    pub fn amount_wei(&self) -> (r: u128)
        ensures
            r == self.spec_amount_wei(),
    {
        assert(self.amount * GWEI_TO_WEI <= u128::MAX) by (nonlinear_arith)
            requires
                self.amount <= u64::MAX,
                GWEI_TO_WEI == 1_000_000_000,
        ;
        self.amount as u128 * GWEI_TO_WEI as u128
    }
}

/// The increments with `amount` more for `address`.
pub open spec fn spec_add_increment(
    increments: Map<Seq<u8>, nat>,
    address: Seq<u8>,
    amount: nat,
) -> Map<Seq<u8>, nat> {
    increments.insert(
        address,
        if increments.dom().contains(address) {
            increments[address] + amount
        } else {
            amount
        },
    )
}

/// The increments with the amounts of the withdrawals added, each to its
/// address. A withdrawal of nothing adds no address.
pub open spec fn spec_withdrawal_increments(
    increments: Map<Seq<u8>, nat>,
    withdrawals: Seq<Withdrawal>,
) -> Map<Seq<u8>, nat>
    decreases withdrawals.len(),
{
    if withdrawals.len() == 0 {
        increments
    } else {
        let earlier = spec_withdrawal_increments(increments, withdrawals.drop_last());
        if withdrawals.last().amount > 0 {
            spec_add_increment(
                earlier,
                withdrawals.last().address@,
                withdrawals.last().spec_amount_wei(),
            )
        } else {
            earlier
        }
    }
}

/// The increments after a block: with the amounts of its withdrawals added
/// where withdrawals are in force and the block has any, and unchanged
/// otherwise.
pub open spec fn spec_post_block_withdrawals(
    increments: Map<Seq<u8>, nat>,
    withdrawals_active: bool,
    withdrawals: Option<Seq<Withdrawal>>,
) -> Map<Seq<u8>, nat> {
    match withdrawals {
        Some(list) => if withdrawals_active {
            spec_withdrawal_increments(increments, list)
        } else {
            increments
        },
        None => increments,
    }
}

/// Whether every increment fits in 128 bits.
pub open spec fn all_fit(increments: Map<Seq<u8>, nat>) -> bool {
    forall|address: Seq<u8>|
        increments.dom().contains(address) ==> #[trigger] increments[address] <= u128::MAX
}

/// What the first withdrawals bring fits where what all of them bring
/// fits: withdrawals only add.
pub proof fn lemma_withdrawals_prefix(
    increments: Map<Seq<u8>, nat>,
    withdrawals: Seq<Withdrawal>,
    i: int,
)
    requires
        0 <= i <= withdrawals.len(),
        all_fit(spec_withdrawal_increments(increments, withdrawals)),
    ensures
        all_fit(spec_withdrawal_increments(increments, withdrawals.take(i))),
    decreases withdrawals.len() - i,
{
    if i == withdrawals.len() {
        assert(withdrawals.take(i) =~= withdrawals);
    } else {
        lemma_withdrawals_prefix(increments, withdrawals, i + 1);
        let longer = withdrawals.take(i + 1);
        assert(longer.drop_last() =~= withdrawals.take(i));
        let before = spec_withdrawal_increments(increments, withdrawals.take(i));
        let after = spec_withdrawal_increments(increments, longer);
        assert forall|address: Seq<u8>| before.dom().contains(address) implies #[trigger]
            before[address] <= u128::MAX by {
            assert(after.dom().contains(address));
            assert(before[address] <= after[address]);
        }
    }
}

/// One address with the increment of its balance.
#[derive(Clone, Copy, Debug, PartialEq, Eq)]
pub struct BalanceIncrement {
    pub address: Address,
    pub amount: u128,
}

/// The index of the first entry for `address`.
pub open spec fn increment_position(entries: Seq<BalanceIncrement>, address: Seq<u8>) -> Option<int>
    decreases entries.len(),
{
    if entries.len() == 0 {
        None
    } else {
        match increment_position(entries.drop_last(), address) {
            Some(i) => Some(i),
            None => if entries.last().address@ == address {
                Some(entries.len() - 1)
            } else {
                None
            },
        }
    }
}

/// The increments that a list of entries holds, by address.
pub open spec fn increments_map(entries: Seq<BalanceIncrement>) -> Map<Seq<u8>, nat> {
    Map::new(
        |a: Seq<u8>| increment_position(entries, a) is Some,
        |a: Seq<u8>| entries[increment_position(entries, a)->0].amount as nat,
    )
}

/// `increment_position` finds the least index whose entry is for the
/// address, and finds none only where there is none.
pub proof fn lemma_increment_position(entries: Seq<BalanceIncrement>, address: Seq<u8>)
    ensures
        match increment_position(entries, address) {
            Some(i) => {
                &&& 0 <= i < entries.len()
                &&& entries[i].address@ == address
                &&& forall|j: int| 0 <= j < i ==> entries[j].address@ != address
            },
            None => forall|j: int| 0 <= j < entries.len() ==> entries[j].address@ != address,
        },
    decreases entries.len(),
{
    if entries.len() > 0 {
        let shorter = entries.drop_last();
        lemma_increment_position(shorter, address);
        assert(forall|j: int| 0 <= j < shorter.len() ==> shorter[j] == entries[j]);
    }
}

/// Lists that agree on their addresses, index by index, find every address
/// at the same index.
proof fn lemma_increment_position_by_addresses(
    a: Seq<BalanceIncrement>,
    b: Seq<BalanceIncrement>,
    address: Seq<u8>,
)
    requires
        a.len() == b.len(),
        forall|j: int| 0 <= j < a.len() ==> a[j].address@ == b[j].address@,
    ensures
        increment_position(a, address) == increment_position(b, address),
    decreases a.len(),
{
    if a.len() > 0 {
        lemma_increment_position_by_addresses(a.drop_last(), b.drop_last(), address);
    }
}

/// The increments of balances, by address.
#[derive(Debug, PartialEq, Eq)]
pub struct BalanceIncrements {
    entries: Vec<BalanceIncrement>,
}

impl View for BalanceIncrements {
    type V = Map<Seq<u8>, nat>;

    closed spec fn view(&self) -> Map<Seq<u8>, nat> {
        increments_map(self.entries@)
    }
}

impl BalanceIncrements {
    /// No address has two entries.
    #[verifier::type_invariant]
    spec fn each_address_once(self) -> bool {
        forall|i: int, j: int|
            0 <= i < j < self.entries@.len() ==> self.entries@[i].address@
                != self.entries@[j].address@
    }

    /// The number of addresses that have an increment.
    pub fn len(&self) -> (r: usize)
        ensures
            self@.dom().finite(),
            r == self@.dom().len(),
    {
        proof {
            use_type_invariant(self);
            let addresses = self.entries@.map_values(|e: BalanceIncrement| e.address@);
            assert(addresses.no_duplicates());
            assert forall|a: Seq<u8>| addresses.to_set().contains(a) == self@.dom().contains(
                a,
            ) by {
                lemma_increment_position(self.entries@, a);
                if addresses.to_set().contains(a) {
                    let i = choose|i: int| 0 <= i < addresses.len() && addresses[i] == a;
                    assert(self.entries@[i].address@ == a);
                }
                if self@.dom().contains(a) {
                    let i = increment_position(self.entries@, a)->0;
                    assert(addresses[i] == a);
                }
            }
            assert(addresses.to_set() =~= self@.dom());
            addresses.unique_seq_to_set();
            vstd::seq_lib::seq_to_set_is_finite(addresses);
        }
        self.entries.len()
    }

    /// No increments.
    pub fn new() -> (r: Self)
        ensures
            r@ == Map::<Seq<u8>, nat>::empty(),
    {
        let r = BalanceIncrements { entries: Vec::new() };
        assert(r@ =~= Map::<Seq<u8>, nat>::empty());
        r
    }

    /// The index of the first entry for `address`.
    fn find(&self, address: &Address) -> (r: Option<usize>)
        ensures
            match increment_position(self.entries@, address@) {
                Some(i) => r matches Some(k) && k == i,
                None => r.is_none(),
            },
            r matches Some(k) ==> k < self.entries@.len(),
    {
        let mut i: usize = 0;
        while i < self.entries.len()
            invariant
                i <= self.entries@.len(),
                forall|j: int| 0 <= j < i ==> (#[trigger] self.entries@[j]).address@ != address@,
            decreases self.entries@.len() - i,
        {
            if self.entries[i].address.is_equal(address) {
                proof {
                    lemma_increment_position(self.entries@, address@);
                }
                return Some(i);
            }
            i = i + 1;
        }
        proof {
            lemma_increment_position(self.entries@, address@);
        }
        None
    }

    /// The increment for `address`, if there is one.
    pub fn get(&self, address: &Address) -> (r: Option<u128>)
        ensures
            match r {
                Some(amount) => self@.dom().contains(address@) && self@[address@] == amount,
                None => !self@.dom().contains(address@),
            },
    {
        match self.find(address) {
            Some(i) => Some(self.entries[i].amount),
            None => None,
        }
    }

    /// Whether there is no increment.
    pub fn is_empty(&self) -> (r: bool)
        ensures
            r == (self@ == Map::<Seq<u8>, nat>::empty()),
    {
        let r = self.entries.len() == 0;
        proof {
            if r {
                assert(self@ =~= Map::<Seq<u8>, nat>::empty());
            } else {
                let first = self.entries@[0].address@;
                lemma_increment_position(self.entries@, first);
                assert(self@.dom().contains(first));
            }
        }
        r
    }

    /// Adds `amount` to the increment for `address`, which starts at
    /// nothing.
    pub fn add(&mut self, address: &Address, amount: u128)
        requires
            all_fit(spec_add_increment(old(self)@, address@, amount as nat)),
        ensures
            final(self)@ == spec_add_increment(old(self)@, address@, amount as nat),
    {
        let found = self.find(address);
        proof {
            use_type_invariant(&*self);
        }
        let mut taken = BalanceIncrements::new();
        core::mem::swap(self, &mut taken);
        let mut entries = taken.entries;
        let ghost before = entries@;
        proof {
            lemma_increment_position(before, address@);
        }
        match found {
            Some(i) => {
                proof {
                    let added = spec_add_increment(
                        increments_map(before),
                        address@,
                        amount as nat,
                    );
                    assert(added[address@] <= u128::MAX);
                }
                let entry = BalanceIncrement {
                    address: *address,
                    amount: entries[i].amount + amount,
                };
                entries.set(i, entry);
                proof {
                    let after = entries@;
                    assert forall|k: Seq<u8>| increment_position(after, k) == increment_position(
                        before,
                        k,
                    ) by {
                        lemma_increment_position_by_addresses(after, before, k);
                    }
                    let added = spec_add_increment(
                        increments_map(before),
                        address@,
                        amount as nat,
                    );
                    assert forall|k: Seq<u8>| #[trigger]
                        increments_map(after).dom().contains(k) implies increments_map(after)[k]
                        == added[k] by {
                        lemma_increment_position(before, k);
                    }
                    assert(increments_map(after) =~= spec_add_increment(
                        increments_map(before),
                        address@,
                        amount as nat,
                    ));
                }
            },
            None => {
                let entry = BalanceIncrement { address: *address, amount };
                entries.push(entry);
                proof {
                    let after = entries@;
                    assert(after.drop_last() =~= before);
                    assert forall|k: Seq<u8>|
                        increment_position(before, k) is Some implies after[increment_position(
                        before,
                        k,
                    )->0] == before[increment_position(before, k)->0] by {
                        lemma_increment_position(before, k);
                    }
                    assert(increments_map(after) =~= spec_add_increment(
                        increments_map(before),
                        address@,
                        amount as nat,
                    ));
                }
            },
        }
        *self = BalanceIncrements { entries };
    }

    /// The addresses with their increments, each address once, in the
    /// order in which they first received one.
    pub fn into_entries(self) -> (r: Vec<BalanceIncrement>)
        ensures
            increments_map(r@) == self@,
    {
        self.entries
    }
}

impl Default for BalanceIncrements {
    fn default() -> (r: Self)
        ensures
            r@ == Map::<Seq<u8>, nat>::empty(),
    {
        BalanceIncrements::new()
    }
}

/// Adds the amounts of a block's withdrawals to the increments, each to its
/// address, where withdrawals are in force and the block has any.
/// Withdrawals of nothing are passed over.
pub fn insert_post_block_withdrawals_balance_increments(
    withdrawals_active: bool,
    withdrawals: Option<&[Withdrawal]>,
    balance_increments: &mut BalanceIncrements,
)
    requires
        all_fit(
            spec_post_block_withdrawals(
                old(balance_increments)@,
                withdrawals_active,
                match withdrawals {
                    Some(list) => Some(list@),
                    None => None,
                },
            ),
        ),
    ensures
        final(balance_increments)@ == spec_post_block_withdrawals(
            old(balance_increments)@,
            withdrawals_active,
            match withdrawals {
                Some(list) => Some(list@),
                None => None,
            },
        ),
{
    if withdrawals_active {
        if let Some(list) = withdrawals {
            let mut i: usize = 0;
            proof {
                assert(list@.take(0) =~= Seq::<Withdrawal>::empty());
            }
            while i < list.len()
                invariant
                    i <= list@.len(),
                    all_fit(spec_withdrawal_increments(old(balance_increments)@, list@)),
                    balance_increments@ == spec_withdrawal_increments(
                        old(balance_increments)@,
                        list@.take(i as int),
                    ),
                decreases list@.len() - i,
            {
                proof {
                    lemma_withdrawals_prefix(old(balance_increments)@, list@, i + 1);
                    assert(list@.take(i + 1).drop_last() =~= list@.take(i as int));
                    assert(list@.take(i + 1).last() == list@[i as int]);
                }
                if list[i].amount > 0 {
                    balance_increments.add(&list[i].address, list[i].amount_wei());
                }
                i = i + 1;
            }
            proof {
                assert(list@.take(list@.len() as int) =~= list@);
            }
        }
    }
}

/// The increments that a block's withdrawals bring, where withdrawals are
/// in force. Withdrawals of nothing are passed over.
pub fn post_block_withdrawals_balance_increments(
    withdrawals_active: bool,
    withdrawals: &[Withdrawal],
) -> (r: BalanceIncrements)
    requires
        all_fit(
            spec_post_block_withdrawals(
                Map::<Seq<u8>, nat>::empty(),
                withdrawals_active,
                Some(withdrawals@),
            ),
        ),
    ensures
        r@ == spec_post_block_withdrawals(
            Map::<Seq<u8>, nat>::empty(),
            withdrawals_active,
            Some(withdrawals@),
        ),
{
    let mut balance_increments = BalanceIncrements::new();
    insert_post_block_withdrawals_balance_increments(
        withdrawals_active,
        Some(withdrawals),
        &mut balance_increments,
    );
    balance_increments
}

/// The header of an ommer, as far as rewards read it.
#[derive(Clone, Copy, Debug, PartialEq, Eq)]
pub struct Ommer {
    /// The address that the ommer's reward goes to.
    pub beneficiary: Address,
    /// The number of the ommer's block.
    pub number: u64,
}

/// A block, as far as the increments of balances read it.
#[derive(Debug, PartialEq, Eq)]
pub struct Block {
    pub number: u64,
    /// The address that the block's reward goes to.
    pub beneficiary: Address,
    pub timestamp: u64,
    pub ommers: Vec<Ommer>,
    /// The block's withdrawals, if it carries any.
    pub withdrawals: Option<Vec<Withdrawal>>,
}

/// The reward for an ommer: an eighth of the base reward for each of the
/// eight generations that the ommer is not behind the block.
pub open spec fn spec_ommer_reward(
    base_block_reward: nat,
    block_number: int,
    ommer_number: int,
) -> nat {
    (((8 + ommer_number - block_number) * base_block_reward) / 8) as nat
}

/// The reward for a block: the base reward, and a thirty-second of it for
/// each ommer that the block includes.
pub open spec fn spec_block_reward(base_block_reward: nat, ommers: nat) -> nat {
    base_block_reward + (base_block_reward / 32) * ommers
}

/// The reward for an ommer of the block `block_number`.
pub fn ommer_reward(base_block_reward: u128, block_number: u64, ommer_block_number: u64) -> (r:
    u128)
    requires
        8 + ommer_block_number >= block_number,
        (8 + ommer_block_number - block_number) * base_block_reward <= u128::MAX,
    ensures
        r == spec_ommer_reward(
            base_block_reward as nat,
            block_number as int,
            ommer_block_number as int,
        ),
{
    let generations: u128 = 8 + ommer_block_number as u128 - block_number as u128;
    (generations * base_block_reward) / 8
}

/// The reward for a block that includes `ommers` ommers.
pub fn block_reward(base_block_reward: u128, ommers: usize) -> (r: u128)
    requires
        spec_block_reward(base_block_reward as nat, ommers as nat) <= u128::MAX,
    ensures
        r == spec_block_reward(base_block_reward as nat, ommers as nat),
{
    let share: u128 = base_block_reward / 32;
    assert(share * ommers <= u128::MAX) by (nonlinear_arith)
        requires
            base_block_reward + share * ommers <= u128::MAX,
            base_block_reward >= 0,
    ;
    base_block_reward + share * ommers as u128
}

/// The increments with the rewards of the first ommers added, each to its
/// beneficiary.
pub open spec fn spec_ommer_increments(
    increments: Map<Seq<u8>, nat>,
    base_block_reward: nat,
    block_number: int,
    ommers: Seq<Ommer>,
) -> Map<Seq<u8>, nat>
    decreases ommers.len(),
{
    if ommers.len() == 0 {
        increments
    } else {
        spec_add_increment(
            spec_ommer_increments(increments, base_block_reward, block_number, ommers.drop_last()),
            ommers.last().beneficiary@,
            spec_ommer_reward(base_block_reward, block_number, ommers.last().number as int),
        )
    }
}

/// The increments that the rewards of a block bring: the ommers' rewards
/// and the block's own, or none where the chain pays no block reward.
pub open spec fn spec_reward_increments(base_block_reward: Option<u128>, block: Block) -> Map<
    Seq<u8>,
    nat,
> {
    match base_block_reward {
        Some(base) => spec_add_increment(
            spec_ommer_increments(
                Map::empty(),
                base as nat,
                block.number as int,
                block.ommers@,
            ),
            block.beneficiary@,
            spec_block_reward(base as nat, block.ommers@.len()),
        ),
        None => Map::empty(),
    }
}

/// All the increments of balances at the end of a block: its rewards, then
/// its withdrawals.
pub open spec fn spec_post_block_balance_increments(
    base_block_reward: Option<u128>,
    withdrawals_active: bool,
    block: Block,
) -> Map<Seq<u8>, nat> {
    spec_post_block_withdrawals(
        spec_reward_increments(base_block_reward, block),
        withdrawals_active,
        match block.withdrawals {
            Some(list) => Some(list@),
            None => None,
        },
    )
}

/// Whether the reward of every ommer can be computed in 128 bits: no
/// ommer is more than eight generations behind the block, and the base
/// reward times the generations that it is not behind fits.
pub open spec fn ommer_rewards_computable(base_block_reward: u128, block: Block) -> bool {
    forall|i: int|
        0 <= i < block.ommers@.len() ==> 8 + (#[trigger] block.ommers@[i]).number
            >= block.number && (8 + block.ommers@[i].number - block.number) * base_block_reward
            <= u128::MAX
}

/// Rewards and withdrawals only add: what fits in the end fits on the way.
proof fn lemma_rewards_fit_on_the_way(base: u128, withdrawals_active: bool, block: Block, i: int)
    requires
        0 <= i <= block.ommers@.len(),
        all_fit(spec_post_block_balance_increments(Some(base), withdrawals_active, block)),
    ensures
        all_fit(spec_reward_increments(Some(base), block)),
        all_fit(
            spec_ommer_increments(
                Map::empty(),
                base as nat,
                block.number as int,
                block.ommers@.take(i),
            ),
        ),
    decreases block.ommers@.len() - i,
{
    let rewards = spec_reward_increments(Some(base), block);
    match block.withdrawals {
        Some(list) => {
            if withdrawals_active {
                lemma_withdrawals_prefix(rewards, list@, 0);
                assert(list@.take(0) =~= Seq::<Withdrawal>::empty());
            }
        },
        None => {},
    }
    let so_far = spec_ommer_increments(
        Map::empty(),
        base as nat,
        block.number as int,
        block.ommers@.take(i),
    );
    if i == block.ommers@.len() {
        assert(block.ommers@.take(i) =~= block.ommers@);
        assert forall|address: Seq<u8>| so_far.dom().contains(address) implies #[trigger]
            so_far[address] <= u128::MAX by {
            assert(rewards.dom().contains(address));
            assert(so_far[address] <= rewards[address]);
        }
    } else {
        lemma_rewards_fit_on_the_way(base, withdrawals_active, block, i + 1);
        let longer = block.ommers@.take(i + 1);
        assert(longer.drop_last() =~= block.ommers@.take(i));
        let next = spec_ommer_increments(Map::empty(), base as nat, block.number as int, longer);
        assert forall|address: Seq<u8>| so_far.dom().contains(address) implies #[trigger]
            so_far[address] <= u128::MAX by {
            assert(next.dom().contains(address));
            assert(so_far[address] <= next[address]);
        }
    }
}

/// Collects all the increments of balances at the end of a block: the
/// ommers' rewards and the block's own, where the chain pays a base reward,
/// and the block's withdrawals, where withdrawals are in force.
pub fn post_block_balance_increments(
    base_block_reward: Option<u128>,
    withdrawals_active: bool,
    block: &Block,
) -> (r: BalanceIncrements)
    requires
        base_block_reward matches Some(base) ==> ommer_rewards_computable(base, *block),
        all_fit(spec_post_block_balance_increments(base_block_reward, withdrawals_active, *block)),
    ensures
        r@ == spec_post_block_balance_increments(base_block_reward, withdrawals_active, *block),
{
    let mut balance_increments = BalanceIncrements::new();
    if let Some(base) = base_block_reward {
        let mut i: usize = 0;
        proof {
            assert(block.ommers@.take(0) =~= Seq::<Ommer>::empty());
        }
        while i < block.ommers.len()
            invariant
                i <= block.ommers@.len(),
                ommer_rewards_computable(base, *block),
                all_fit(
                    spec_post_block_balance_increments(Some(base), withdrawals_active, *block),
                ),
                balance_increments@ == spec_ommer_increments(
                    Map::empty(),
                    base as nat,
                    block.number as int,
                    block.ommers@.take(i as int),
                ),
            decreases block.ommers@.len() - i,
        {
            let ommer = block.ommers[i];
            proof {
                lemma_rewards_fit_on_the_way(base, withdrawals_active, *block, i + 1);
                let longer = block.ommers@.take(i + 1);
                assert(longer.drop_last() =~= block.ommers@.take(i as int));
                assert(longer.last() == ommer);
                let next = spec_ommer_increments(
                    Map::empty(),
                    base as nat,
                    block.number as int,
                    longer,
                );
                let reward = spec_ommer_reward(
                    base as nat,
                    block.number as int,
                    ommer.number as int,
                );
                assert(next.dom().contains(ommer.beneficiary@));
                assert(reward <= next[ommer.beneficiary@]);
            }
            let reward = ommer_reward(base, block.number, ommer.number);
            balance_increments.add(&ommer.beneficiary, reward);
            i = i + 1;
        }
        proof {
            assert(block.ommers@.take(block.ommers@.len() as int) =~= block.ommers@);
            lemma_rewards_fit_on_the_way(base, withdrawals_active, *block, 0);
            let rewards = spec_reward_increments(Some(base), *block);
            assert(rewards.dom().contains(block.beneficiary@));
            assert(spec_block_reward(base as nat, block.ommers@.len())
                <= rewards[block.beneficiary@]);
        }
        let reward = block_reward(base, block.ommers.len());
        balance_increments.add(&block.beneficiary, reward);
    }
    match &block.withdrawals {
        Some(list) => insert_post_block_withdrawals_balance_increments(
            withdrawals_active,
            Some(list.as_slice()),
            &mut balance_increments,
        ),
        None => insert_post_block_withdrawals_balance_increments(
            withdrawals_active,
            None,
            &mut balance_increments,
        ),
    }
    balance_increments
}

} // verus!
