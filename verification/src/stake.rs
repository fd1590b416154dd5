//! Stake positions and their arithmetic: what an account holds in a pool,
//! what it earns, and how the sums over a pool behave.

use vstd::prelude::*;
use crate::types::{AccountId, Balance, Reward};

verus! {

/// What one account holds in one pool.
#[derive(Debug, Clone, Copy, PartialEq, Eq, Structural)]
pub struct StakePosition {
    /// The account.
    pub account: AccountId,
    /// What the account has staked.
    pub staked_amount: Balance,
    /// What the account has earned and not yet claimed.
    pub accrued_reward: Reward,
}

/// The reward on `staked` at `rate` percent, rounded down to a whole unit.
pub open spec fn reward_for(staked: Balance, rate: u32) -> nat {
    ((staked as nat) * (rate as nat)) / 100
}

/// The sum of the staked amounts of `s`.
pub open spec fn sum_staked(s: Seq<StakePosition>) -> nat
    decreases s.len(),
{
    if s.len() == 0 {
        0
    } else {
        sum_staked(s.drop_last()) + s.last().staked_amount as nat
    }
}

/// The sum of the accrued rewards of `s`.
pub open spec fn sum_accrued(s: Seq<StakePosition>) -> nat
    decreases s.len(),
{
    if s.len() == 0 {
        0
    } else {
        sum_accrued(s.drop_last()) + s.last().accrued_reward as nat
    }
}

/// The sum of the rewards that the positions of `s` earn at `rate` percent.
pub open spec fn sum_rewards(s: Seq<StakePosition>, rate: u32) -> nat
    decreases s.len(),
{
    if s.len() == 0 {
        0
    } else {
        sum_rewards(s.drop_last(), rate) + reward_for(s.last().staked_amount, rate)
    }
}

/// The number of positions of `s` with something staked.
pub open spec fn stakers(s: Seq<StakePosition>) -> nat
    decreases s.len(),
{
    if s.len() == 0 {
        0
    } else {
        stakers(s.drop_last()) + if s.last().staked_amount > 0 {
            1nat
        } else {
            0nat
        }
    }
}

/// The reward budget of a pool: the reward on all that is staked in it.
pub open spec fn reward_budget(s: Seq<StakePosition>, rate: u32) -> nat {
    (sum_staked(s) * (rate as nat)) / 100
}

/// Whether `account` has a position in `s`.
pub open spec fn has_account(s: Seq<StakePosition>, account: AccountId) -> bool {
    exists|i: int| 0 <= i < s.len() && #[trigger] s[i].account == account
}

/// The place of the position of `account` in `s`.
pub open spec fn slot_of(s: Seq<StakePosition>, account: AccountId) -> int {
    choose|i: int| 0 <= i < s.len() && #[trigger] s[i].account == account
}

/// The position of `account` in `s`; where it has none, one that holds nothing.
pub open spec fn position_of(s: Seq<StakePosition>, account: AccountId) -> StakePosition {
    if has_account(s, account) {
        s[slot_of(s, account)]
    } else {
        StakePosition { account, staked_amount: 0, accrued_reward: 0 }
    }
}

/// Whether no account has two positions in `s`.
pub open spec fn distinct_accounts(s: Seq<StakePosition>) -> bool {
    forall|i: int, j: int| 0 <= i < j < s.len() ==> s[i].account != s[j].account
}

/// `s` after `account` has staked `amount` more.
pub open spec fn credited(s: Seq<StakePosition>, account: AccountId, amount: Balance) -> Seq<
    StakePosition,
> {
    if has_account(s, account) {
        let i = slot_of(s, account);
        s.update(
            i,
            StakePosition { staked_amount: (s[i].staked_amount + amount) as Balance, ..s[i] },
        )
    } else {
        s.push(StakePosition { account, staked_amount: amount, accrued_reward: 0 })
    }
}

/// `s` after `account` has taken `amount` back, where it has a position.
pub open spec fn debited(s: Seq<StakePosition>, account: AccountId, amount: Balance) -> Seq<
    StakePosition,
> {
    if has_account(s, account) {
        let i = slot_of(s, account);
        s.update(
            i,
            StakePosition { staked_amount: (s[i].staked_amount - amount) as Balance, ..s[i] },
        )
    } else {
        s
    }
}

/// `s` after every position has been given its reward at `rate` percent.
pub open spec fn rewarded(s: Seq<StakePosition>, rate: u32) -> Seq<StakePosition> {
    Seq::new(
        s.len(),
        |i: int|
            StakePosition {
                accrued_reward: reward_for(s[i].staked_amount, rate) as Reward,
                ..s[i]
            },
    )
}

/// `s` after `account` has been paid its reward, where it has a position.
pub open spec fn paid_out(s: Seq<StakePosition>, account: AccountId) -> Seq<StakePosition> {
    if has_account(s, account) {
        let i = slot_of(s, account);
        s.update(i, StakePosition { accrued_reward: 0, ..s[i] })
    } else {
        s
    }
}

/// A reward fits well inside its type, whatever the stake and the rate.
pub proof fn lemma_reward_bound(staked: Balance, rate: u32)
    ensures
        reward_for(staked, rate) <= (staked as nat) * (rate as nat),
        reward_for(staked, rate) < 0x1_0000_0000_0000_0000_0000_0000,
        rate <= 100 ==> reward_for(staked, rate) <= staked,
{
    let p = (staked as nat) * (rate as nat);
    assert(p < 0x1_0000_0000_0000_0000_0000_0000) by (nonlinear_arith)
        requires
            p == (staked as nat) * (rate as nat),
            staked <= 0xffff_ffff_ffff_ffff,
            rate <= 0xffff_ffff,
    ;
    assert(p / 100 <= p) by (nonlinear_arith)
        requires
            p >= 0,
    ;
    if rate <= 100 {
        assert(p / 100 <= staked) by (nonlinear_arith)
            requires
                p == (staked as nat) * (rate as nat),
                rate <= 100,
        ;
    }
}

/// Changing one position changes the sum of the staked amounts by the
/// difference.
pub proof fn lemma_sum_staked_update(s: Seq<StakePosition>, i: int, p: StakePosition)
    requires
        0 <= i < s.len(),
    ensures
        sum_staked(s.update(i, p)) + s[i].staked_amount == sum_staked(s) + p.staked_amount,
        s[i].staked_amount <= sum_staked(s),
    decreases s.len(),
{
    if i == s.len() - 1 {
        assert(s.update(i, p).drop_last() =~= s.drop_last());
    } else {
        lemma_sum_staked_update(s.drop_last(), i, p);
        assert(s.update(i, p).drop_last() =~= s.drop_last().update(i, p));
    }
}

/// A new position adds its staked amount to the sum.
pub proof fn lemma_sum_staked_push(s: Seq<StakePosition>, p: StakePosition)
    ensures
        sum_staked(s.push(p)) == sum_staked(s) + p.staked_amount,
{
    assert(s.push(p).drop_last() =~= s);
}

/// Giving the rewards out leaves the staked amounts as they are, and the
/// accrued rewards then sum to the rewards earned.
pub proof fn lemma_rewarded_sums(s: Seq<StakePosition>, rate: u32)
    ensures
        sum_staked(rewarded(s, rate)) == sum_staked(s),
        sum_accrued(rewarded(s, rate)) == sum_rewards(s, rate),
    decreases s.len(),
{
    if s.len() > 0 {
        lemma_rewarded_sums(s.drop_last(), rate);
        assert(rewarded(s, rate).drop_last() =~= rewarded(s.drop_last(), rate));
        lemma_reward_bound(s.last().staked_amount, rate);
    }
}

proof fn lemma_rewards_bracket(s: Seq<StakePosition>, rate: u32)
    ensures
        100 * sum_rewards(s, rate) <= sum_staked(s) * (rate as nat),
        sum_staked(s) * (rate as nat) <= 100 * sum_rewards(s, rate) + 99 * stakers(s),
    decreases s.len(),
{
    if s.len() > 0 {
        let t = s.drop_last();
        let x = s.last().staked_amount as nat;
        let r = rate as nat;
        lemma_rewards_bracket(t, rate);
        let a = sum_staked(t);
        assert((a + x) * r == a * r + x * r) by (nonlinear_arith);
        let q = (x * r) / 100;
        assert(100 * q <= x * r && x * r <= 100 * q + 99) by (nonlinear_arith)
            requires
                q == (x * r) / 100,
        ;
        if x == 0 {
            assert(x * r == 0) by (nonlinear_arith)
                requires
                    x == 0,
            ;
        }
        assert(sum_staked(s) == a + x);
        assert(sum_rewards(s, rate) == sum_rewards(t, rate) + q);
    } else {
        assert(sum_staked(s) * (rate as nat) == 0) by (nonlinear_arith)
            requires
                sum_staked(s) == 0,
        ;
    }
}

/// What is given out never exceeds the reward budget, which is the reward on
/// the total staked. What stays behind by rounding is less than one unit for
/// each account with a stake: nothing where no account has a stake, and
/// otherwise at most the number of such accounts less one.
pub proof fn lemma_rewards_within_budget(s: Seq<StakePosition>, rate: u32)
    ensures
        sum_rewards(s, rate) <= reward_budget(s, rate),
        stakers(s) == 0 ==> reward_budget(s, rate) == sum_rewards(s, rate),
        stakers(s) >= 1 ==> reward_budget(s, rate) - sum_rewards(s, rate) <= stakers(s) - 1,
{
    lemma_rewards_bracket(s, rate);
    let total = sum_staked(s) * (rate as nat);
    let given = sum_rewards(s, rate);
    let n = stakers(s);
    assert(given <= total / 100) by (nonlinear_arith)
        requires
            100 * given <= total,
    ;
    assert(total / 100 <= given + n - 1 || n == 0) by (nonlinear_arith)
        requires
            total <= 100 * given + 99 * n,
    ;
    if n == 0 {
        assert(total / 100 <= given) by (nonlinear_arith)
            requires
                total <= 100 * given,
        ;
    }
}

/// Where two sequences hold the same accounts place by place, an account has
/// the same place in both.
pub proof fn lemma_same_places(s: Seq<StakePosition>, t: Seq<StakePosition>, who: AccountId)
    requires
        distinct_accounts(s),
        t.len() == s.len(),
        forall|i: int| 0 <= i < s.len() ==> (#[trigger] t[i]).account == s[i].account,
    ensures
        distinct_accounts(t),
        has_account(t, who) == has_account(s, who),
        has_account(s, who) ==> slot_of(t, who) == slot_of(s, who),
{
    assert forall|i: int, j: int| 0 <= i < j < t.len() implies t[i].account != t[j].account by {
        assert(t[i].account == s[i].account && t[j].account == s[j].account);
    }
    if has_account(s, who) {
        let i = slot_of(s, who);
        assert(t[i].account == who);
        let j = slot_of(t, who);
        assert(0 <= j < t.len() && t[j].account == who);
        assert(s[j].account == who);
    }
    if has_account(t, who) {
        let j = slot_of(t, who);
        assert(s[j].account == who);
    }
}

/// The position of every account after `account` has staked `amount` more:
/// that of `account` holds the amount more, the others are as they were.
pub proof fn lemma_credited(
    s: Seq<StakePosition>,
    account: AccountId,
    amount: Balance,
    who: AccountId,
)
    requires
        distinct_accounts(s),
        sum_staked(s) + amount <= Balance::MAX,
    ensures
        distinct_accounts(credited(s, account, amount)),
        who != account ==> position_of(credited(s, account, amount), who) == position_of(s, who),
        position_of(credited(s, account, amount), account) == (StakePosition {
            staked_amount: (position_of(s, account).staked_amount + amount) as Balance,
            ..position_of(s, account)
        }),
        position_of(s, account).staked_amount + amount <= Balance::MAX,
{
    let t = credited(s, account, amount);
    if has_account(s, account) {
        let i = slot_of(s, account);
        lemma_sum_staked_update(s, i, s[i]);
        lemma_same_places(s, t, who);
        lemma_same_places(s, t, account);
    } else {
        let n = s.len() as int;
        assert(t[n].account == account);
        let j = slot_of(t, account);
        assert(0 <= j < t.len() && t[j].account == account);
        if j != n {
            assert(s[j].account == account);
        }
        if who != account {
            if has_account(s, who) {
                let i = slot_of(s, who);
                assert(t[i].account == who);
                let k = slot_of(t, who);
                assert(0 <= k < t.len() && t[k].account == who);
                assert(k < n);
                assert(s[k].account == who);
            }
            if has_account(t, who) {
                let k = slot_of(t, who);
                assert(k < n);
                assert(s[k].account == who);
            }
        }
    }
}

/// The position of every account after `account` has taken `amount` back:
/// that of `account` holds the amount less, the others are as they were.
pub proof fn lemma_debited(
    s: Seq<StakePosition>,
    account: AccountId,
    amount: Balance,
    who: AccountId,
)
    requires
        distinct_accounts(s),
        amount <= position_of(s, account).staked_amount,
    ensures
        distinct_accounts(debited(s, account, amount)),
        who != account ==> position_of(debited(s, account, amount), who) == position_of(s, who),
        position_of(debited(s, account, amount), account) == (StakePosition {
            staked_amount: (position_of(s, account).staked_amount - amount) as Balance,
            ..position_of(s, account)
        }),
{
    let t = debited(s, account, amount);
    lemma_same_places(s, t, who);
    lemma_same_places(s, t, account);
}

/// The position of every account after the rewards at `rate` percent have
/// been given out: it has accrued the reward on what it has staked.
pub proof fn lemma_rewarded(s: Seq<StakePosition>, rate: u32, who: AccountId)
    requires
        distinct_accounts(s),
    ensures
        distinct_accounts(rewarded(s, rate)),
        position_of(rewarded(s, rate), who) == (StakePosition {
            accrued_reward: reward_for(position_of(s, who).staked_amount, rate) as Reward,
            ..position_of(s, who)
        }),
        reward_for(position_of(s, who).staked_amount, rate) <= Reward::MAX,
{
    lemma_same_places(s, rewarded(s, rate), who);
    lemma_reward_bound(position_of(s, who).staked_amount, rate);
    assert(reward_for(0, rate) == 0) by (nonlinear_arith)
        requires
            reward_for(0, rate) == (0 * (rate as nat)) / 100,
    ;
}

/// The position of every account after `account` has been paid its reward:
/// that of `account` has accrued nothing, the others are as they were.
pub proof fn lemma_paid_out(s: Seq<StakePosition>, account: AccountId, who: AccountId)
    requires
        distinct_accounts(s),
    ensures
        distinct_accounts(paid_out(s, account)),
        who != account ==> position_of(paid_out(s, account), who) == position_of(s, who),
        position_of(paid_out(s, account), account) == (StakePosition {
            accrued_reward: 0,
            ..position_of(s, account)
        }),
{
    let t = paid_out(s, account);
    lemma_same_places(s, t, who);
    lemma_same_places(s, t, account);
}

/// The reward rule of a staking pool.
#[derive(Debug, Clone, Copy, PartialEq, Eq, Structural)]
pub struct PoolLogicHandler;

impl PoolLogicHandler {
    /// The reward on `staked` at `rate` percent, rounded down.
    pub fn reward(staked: Balance, rate: u32) -> (r: Reward)
        ensures
            r == reward_for(staked, rate),
    {
        proof {
            lemma_reward_bound(staked, rate);
        }
        let product: u128 = (staked as u128) * (rate as u128);
        product / 100
    }
}

} // verus!
