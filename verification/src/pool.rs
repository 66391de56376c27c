//! The pool accountant: deposits, withdrawals and O(1) proportional reward
//! distribution through a fixed-point reward-per-share accumulator.
//!
//! Pool state is an explicit owned struct; each operation takes the host
//! ledger, the caller's [`Origin`] capability and the current block height,
//! validates the call against current state, and either commits the full
//! state transition or fails with a typed error and changes nothing.

use vstd::prelude::*;

use crate::alist::{
    alist_find, alist_lookup, alist_unique, lemma_lookup_at_index, lemma_lookup_has,
    lemma_lookup_index_of, lemma_lookup_push, lemma_lookup_remove, lemma_lookup_update,
    lemma_unique_push, lemma_unique_remove, lemma_unique_update,
};
use crate::ledger::Ledger;
use crate::numeric::{
    PRECISION, lemma_sat_mul_bounds, lemma_sat_mul_mono, sat_add, sat_add_spec, sat_mul,
    sat_mul_spec, sat_sub,
};
use crate::{AccountId, Balance, BlockNumber, Origin};

verus! {

/// One account's live deposit in the pool.
#[derive(Clone, Copy, Debug, PartialEq, Eq, Structural)]
pub struct DepositInfo {
    /// Currently staked amount.
    pub amount: Balance,
    /// Block of the most recent deposit that touched this record.
    pub deposit_block: BlockNumber,
    /// Rewards already priced in: `amount * acc_reward_per_share / PRECISION`
    /// at the time of the last settlement.
    pub reward_debt: Balance,
}

/// Why a pool operation was rejected. A rejected operation changes nothing.
#[derive(Clone, Copy, Debug, PartialEq, Eq, Structural)]
pub enum Error {
    /// The caller lacks the capability the operation demands.
    BadOrigin,
    /// The caller has no deposit in the pool.
    NoDeposit,
    /// The caller's free balance is too small.
    InsufficientBalance,
    /// The amount must be greater than zero.
    ZeroAmount,
    /// The pool cannot pay the requested withdrawal or reward, or the
    /// withdrawal exceeds the caller's deposit.
    InsufficientPoolBalance,
    /// An arithmetic bound was exceeded.
    ArithmeticOverflow,
}

/// Configuration of the pool accountant.
#[derive(Clone, Copy, Debug, PartialEq, Eq, Structural)]
pub struct Config {
    /// The distinguished account that holds all pooled funds.
    pub pool_account: AccountId,
}

/// Rewards accrued so far on a stake of `amount` at accumulator value `acc`:
/// `amount * acc / PRECISION`, with the product saturating as stored.
pub open spec fn spec_accrued(amount: u64, acc: u64) -> int {
    sat_mul_spec(amount as int, acc as int) / (PRECISION as int)
}

/// Accrued rewards never shrink as the accumulator grows.
pub proof fn lemma_accrued_mono(amount: u64, acc1: u64, acc2: u64)
    requires
        acc1 <= acc2,
    ensures
        spec_accrued(amount, acc1) <= spec_accrued(amount, acc2),
{
    lemma_sat_mul_mono(amount as int, amount as int, acc1 as int, acc2 as int);
    lemma_sat_mul_bounds(amount as int, acc1 as int);
    vstd::arithmetic::div_mod::lemma_div_is_ordered(
        sat_mul_spec(amount as int, acc1 as int),
        sat_mul_spec(amount as int, acc2 as int),
        PRECISION as int,
    );
}

/// Sum of the staked amounts over a sequence of deposit records.
pub open spec fn amount_sum(s: Seq<(AccountId, DepositInfo)>) -> int
    decreases s.len(),
{
    if s.len() == 0 {
        0
    } else {
        s[0].1.amount + amount_sum(s.drop_first())
    }
}

pub proof fn lemma_amount_sum_nonneg(s: Seq<(AccountId, DepositInfo)>)
    ensures
        amount_sum(s) >= 0,
    decreases s.len(),
{
    if s.len() > 0 {
        lemma_amount_sum_nonneg(s.drop_first());
    }
}

pub proof fn lemma_amount_sum_update(s: Seq<(AccountId, DepositInfo)>, i: int, e: (
    AccountId,
    DepositInfo,
))
    requires
        0 <= i < s.len(),
    ensures
        amount_sum(s.update(i, e)) == amount_sum(s) - s[i].1.amount + e.1.amount,
    decreases s.len(),
{
    let t = s.update(i, e);
    if i == 0 {
        assert(t.drop_first() =~= s.drop_first());
    } else {
        assert(t.drop_first() =~= s.drop_first().update(i - 1, e));
        lemma_amount_sum_update(s.drop_first(), i - 1, e);
    }
}

pub proof fn lemma_amount_sum_push(s: Seq<(AccountId, DepositInfo)>, e: (AccountId, DepositInfo))
    ensures
        amount_sum(s.push(e)) == amount_sum(s) + e.1.amount,
    decreases s.len(),
{
    let t = s.push(e);
    if s.len() == 0 {
        assert(t[0] == e);
        assert(t.drop_first() =~= Seq::<(AccountId, DepositInfo)>::empty());
        assert(amount_sum(Seq::<(AccountId, DepositInfo)>::empty()) == 0);
        assert(amount_sum(t) == t[0].1.amount + amount_sum(t.drop_first()));
    } else {
        assert(t[0] == s[0]);
        assert(t.drop_first() =~= s.drop_first().push(e));
        lemma_amount_sum_push(s.drop_first(), e);
    }
}

pub proof fn lemma_amount_sum_remove(s: Seq<(AccountId, DepositInfo)>, i: int)
    requires
        0 <= i < s.len(),
    ensures
        amount_sum(s.remove(i)) == amount_sum(s) - s[i].1.amount,
    decreases s.len(),
{
    let t = s.remove(i);
    if i == 0 {
        assert(t =~= s.drop_first());
    } else {
        assert(t.drop_first() =~= s.drop_first().remove(i - 1));
        lemma_amount_sum_remove(s.drop_first(), i - 1);
    }
}

/// Each record's amount is bounded by the sum over all records.
pub proof fn lemma_member_le_sum(s: Seq<(AccountId, DepositInfo)>, i: int)
    requires
        0 <= i < s.len(),
    ensures
        s[i].1.amount <= amount_sum(s),
    decreases s.len(),
{
    if i == 0 {
        lemma_amount_sum_nonneg(s.drop_first());
    } else {
        lemma_member_le_sum(s.drop_first(), i - 1);
    }
}

/// Test account endowed at genesis.
pub const ALICE: AccountId = 1;

/// Test account endowed at genesis.
pub const BOB: AccountId = 2;

/// Test account endowed at genesis; plays the reward origin in tests.
pub const CHARLIE: AccountId = 3;

/// Test account endowed at genesis.
pub const TEAM: AccountId = 100;

/// The distinguished pool account: the ASCII bytes of the pool's
/// eight-character identifier tag, read as a big-endian integer.
pub const POOL_ACCOUNT: AccountId = 0x6e74_7670_6f6f_6c73;

/// Builds the well-known genesis state for exercising the pool accountant.
pub struct ExtBuilder;

/// A fresh pool over a ledger endowing the four test accounts.
pub fn new_test_ext() -> (r: (Pallet, Ledger))
    ensures
        r.0.wf(),
        r.1.wf(),
        r.0.spec_pool_account() == POOL_ACCOUNT,
        r.0.spec_total_deposited() == 0,
        r.0.spec_total_rewards() == 0,
        r.0.spec_acc_reward_per_share() == 0,
        forall|a: AccountId| #[trigger] r.0.spec_deposit_of(a) is None,
        r.1.spec_free(ALICE) == 10_000,
        r.1.spec_free(BOB) == 10_000,
        r.1.spec_free(CHARLIE) == 10_000,
        r.1.spec_free(TEAM) == 50_000,
        forall|a: AccountId|
            a != ALICE && a != BOB && a != CHARLIE && a != TEAM ==> #[trigger] r.1.spec_free(a)
                == 0,
        forall|a: AccountId| #[trigger] r.1.spec_lock(a) is None,
{
    let pallet = Pallet::new(Config { pool_account: POOL_ACCOUNT });
    let mut ledger = Ledger::new();
    ledger.set_balance(ALICE, 10_000);
    ledger.set_balance(BOB, 10_000);
    ledger.set_balance(CHARLIE, 10_000);
    ledger.set_balance(TEAM, 50_000);
    (pallet, ledger)
}

impl ExtBuilder {
    /// The genesis state used by the pool tests.
    pub fn build() -> (r: (Pallet, Ledger))
        ensures
            r.0.wf(),
            r.1.wf(),
            r.0.spec_pool_account() == POOL_ACCOUNT,
            r.0.spec_total_deposited() == 0,
            r.0.spec_total_rewards() == 0,
            r.0.spec_acc_reward_per_share() == 0,
            forall|a: AccountId| #[trigger] r.0.spec_deposit_of(a) is None,
            r.1.spec_free(ALICE) == 10_000,
            r.1.spec_free(BOB) == 10_000,
            r.1.spec_free(CHARLIE) == 10_000,
            r.1.spec_free(TEAM) == 50_000,
            forall|a: AccountId|
                a != ALICE && a != BOB && a != CHARLIE && a != TEAM ==> #[trigger] r.1.spec_free(a)
                    == 0,
            forall|a: AccountId| #[trigger] r.1.spec_lock(a) is None,
    {
        new_test_ext()
    }
}

/// The pool accountant's entire state.
pub struct Pallet {
    config: Config,
    total_deposited: Balance,
    total_rewards: Balance,
    acc_reward_per_share: Balance,
    last_reward_block: BlockNumber,
    deposits: Vec<(AccountId, DepositInfo)>,
}

impl Pallet {
    pub closed spec fn spec_deposits(self) -> Seq<(AccountId, DepositInfo)> {
        self.deposits@
    }

    pub closed spec fn spec_total_deposited(self) -> Balance {
        self.total_deposited
    }

    pub closed spec fn spec_total_rewards(self) -> Balance {
        self.total_rewards
    }

    pub closed spec fn spec_acc_reward_per_share(self) -> Balance {
        self.acc_reward_per_share
    }

    pub closed spec fn spec_last_reward_block(self) -> BlockNumber {
        self.last_reward_block
    }

    pub closed spec fn spec_pool_account(self) -> AccountId {
        self.config.pool_account
    }

    /// The deposit record of `who`, if one is live.
    pub open spec fn spec_deposit_of(self, who: AccountId) -> Option<DepositInfo> {
        alist_lookup(self.spec_deposits(), who)
    }

    /// Unclaimed reward of `who`:
    /// `amount * acc_reward_per_share / PRECISION - reward_debt`.
    pub open spec fn spec_pending(self, who: AccountId) -> int {
        match self.spec_deposit_of(who) {
            Some(d) => spec_accrued(d.amount, self.spec_acc_reward_per_share()) - d.reward_debt,
            None => 0,
        }
    }

    /// Well-formed pool state: one record per account; `total_deposited` is
    /// exactly the sum of the live record amounts; and no record has priced
    /// in more reward than the accumulator grants it (pending rewards are
    /// never negative).
    pub open spec fn wf(self) -> bool {
        &&& alist_unique(self.spec_deposits())
        &&& self.spec_total_deposited() as int == amount_sum(self.spec_deposits())
        &&& forall|i: int|
            0 <= i < self.spec_deposits().len() ==> (#[trigger] self.spec_deposits()[i]).1.reward_debt as int
                <= spec_accrued(self.spec_deposits()[i].1.amount, self.spec_acc_reward_per_share())
    }

    /// An empty pool with the given configuration.
    pub fn new(config: Config) -> (r: Pallet)
        ensures
            r.wf(),
            r.spec_pool_account() == config.pool_account,
            r.spec_total_deposited() == 0,
            r.spec_total_rewards() == 0,
            r.spec_acc_reward_per_share() == 0,
            r.spec_last_reward_block() == 0,
            forall|a: AccountId| #[trigger] r.spec_deposit_of(a) is None,
    {
        let r = Pallet {
            config,
            total_deposited: 0,
            total_rewards: 0,
            acc_reward_per_share: 0,
            last_reward_block: 0,
            deposits: Vec::new(),
        };
        proof {
            assert forall|a: AccountId| #[trigger] r.spec_deposit_of(a) is None by {
                assert(r.spec_deposits().len() == 0);
            }
        }
        r
    }

    /// The account that holds the pooled funds.
    pub fn account_id(&self) -> (r: AccountId)
        ensures
            r == self.spec_pool_account(),
    {
        self.config.pool_account
    }

    /// Total amount currently deposited by all users.
    pub fn total_deposited(&self) -> (r: Balance)
        ensures
            r == self.spec_total_deposited(),
    {
        self.total_deposited
    }

    /// Lifetime sum of injected rewards.
    pub fn total_rewards(&self) -> (r: Balance)
        ensures
            r == self.spec_total_rewards(),
    {
        self.total_rewards
    }

    /// Current value of the reward-per-share accumulator.
    pub fn acc_reward_per_share(&self) -> (r: Balance)
        ensures
            r == self.spec_acc_reward_per_share(),
    {
        self.acc_reward_per_share
    }

    /// Block of the last state-changing pool operation.
    pub fn last_reward_block(&self) -> (r: BlockNumber)
        ensures
            r == self.spec_last_reward_block(),
    {
        self.last_reward_block
    }

    /// The deposit record of `who`, if one is live.
    pub fn deposits(&self, who: AccountId) -> (r: Option<DepositInfo>)
        requires
            self.wf(),
        ensures
            r == self.spec_deposit_of(who),
    {
        match self.find(who) {
            Some(i) => Some(self.deposits[i].1),
            None => None,
        }
    }

    /// Position of `who`'s record, if one is live.
    fn find(&self, who: AccountId) -> (r: Option<usize>)
        requires
            alist_unique(self.spec_deposits()),
        ensures
            match r {
                Some(i) => {
                    &&& i < self.spec_deposits().len()
                    &&& self.spec_deposits()[i as int].0 == who
                    &&& self.spec_deposit_of(who) == Some(self.spec_deposits()[i as int].1)
                },
                None => self.spec_deposit_of(who) is None,
            },
    {
        let r = alist_find(&self.deposits, who);
        proof {
            match r {
                Some(i) => {
                    lemma_lookup_at_index(self.spec_deposits(), who, i as int);
                },
                None => {
                    lemma_lookup_has(self.spec_deposits(), who);
                },
            }
        }
        r
    }

    /// Unclaimed reward of `who`, from the accumulator and the record's
    /// reward debt. Read-only; fails only when `who` has no deposit.
    pub fn calculate_pending_rewards(&self, who: AccountId) -> (r: Result<Balance, Error>)
        requires
            self.wf(),
        ensures
            match r {
                Ok(p) => self.spec_deposit_of(who) is Some && p as int == self.spec_pending(who),
                Err(e) => e == Error::NoDeposit && self.spec_deposit_of(who) is None,
            },
    {
        let i = match self.find(who) {
            Some(i) => i,
            None => {
                return Err(Error::NoDeposit);
            },
        };
        let d = self.deposits[i].1;
        let accrued = sat_mul(d.amount, self.acc_reward_per_share) / PRECISION;
        Ok(sat_sub(accrued, d.reward_debt))
    }

    /// The exact result of `deposit`, decided against the pre-state.
    pub open spec fn deposit_outcome(self, led: Ledger, origin: Origin, amount: Balance) -> Result<
        (),
        Error,
    > {
        match origin.spec_signer() {
            None => Err(Error::BadOrigin),
            Some(who) => if amount == 0 {
                Err(Error::ZeroAmount)
            } else if led.spec_free(who) < amount {
                Err(Error::InsufficientBalance)
            } else if self.spec_total_deposited() as int + amount as int > u64::MAX as int {
                Err(Error::ArithmeticOverflow)
            } else if who != self.spec_pool_account() && led.spec_free(self.spec_pool_account())
                as int + amount as int > u64::MAX as int {
                Err(Error::ArithmeticOverflow)
            } else {
                Ok(())
            },
        }
    }

    /// Deposit `amount` into the pool. On success the amount moves from the
    /// caller to the pool account, the caller's record grows by `amount`
    /// (created if absent), and its reward debt is re-based to the current
    /// accumulator value, forfeiting any still-unclaimed reward. A deposit
    /// that would push `total_deposited` past the balance type's maximum is
    /// rejected, so the total always equals the sum of the records exactly.
    pub fn deposit(&mut self, ledger: &mut Ledger, origin: Origin, now: BlockNumber,
        amount: Balance) -> (r: Result<(), Error>)
        requires
            old(self).wf(),
            old(ledger).wf(),
        ensures
            final(self).wf(),
            final(ledger).wf(),
            r == old(self).deposit_outcome(*old(ledger), origin, amount),
            r is Err ==> *final(self) == *old(self) && *final(ledger) == *old(ledger),
            final(self).spec_acc_reward_per_share() == old(self).spec_acc_reward_per_share(),
            final(self).spec_total_rewards() == old(self).spec_total_rewards(),
            final(self).spec_pool_account() == old(self).spec_pool_account(),
            r is Ok ==> ({
                let who = origin.spec_signer().unwrap();
                let acc = old(self).spec_acc_reward_per_share();
                let new_amount = (match old(self).spec_deposit_of(who) {
                    Some(d) => d.amount + amount,
                    None => amount as int,
                }) as u64;
                &&& final(self).spec_deposit_of(who) == Some(
                    DepositInfo {
                        amount: new_amount,
                        deposit_block: now,
                        reward_debt: spec_accrued(new_amount, acc) as u64,
                    },
                )
                &&& forall|a: AccountId|
                    a != who ==> #[trigger] final(self).spec_deposit_of(a) == old(
                        self,
                    ).spec_deposit_of(a)
                &&& final(self).spec_total_deposited() == old(self).spec_total_deposited()
                    + amount
                &&& final(self).spec_last_reward_block() == now
                &&& (who == old(self).spec_pool_account() ==> *final(ledger) == *old(ledger))
                &&& (who != old(self).spec_pool_account()
                    ==> final(ledger).spec_free(who) == old(ledger).spec_free(who) - amount)
                &&& (who != old(self).spec_pool_account()
                    ==> final(ledger).spec_free(old(self).spec_pool_account())
                        == old(ledger).spec_free(old(self).spec_pool_account()) + amount)
                &&& (who != old(self).spec_pool_account()
                    ==> forall|a: AccountId|
                        a != who && a != old(self).spec_pool_account()
                            ==> #[trigger] final(ledger).spec_account(a)
                                == old(ledger).spec_account(a))
                &&& forall|a: AccountId| #[trigger]
                    final(ledger).spec_lock(a) == old(ledger).spec_lock(a)
            }),
    {
        let who = match origin {
            Origin::Signed(w) => w,
            Origin::Root => {
                return Err(Error::BadOrigin);
            },
        };
        if amount == 0 {
            return Err(Error::ZeroAmount);
        }
        if ledger.free_balance(who) < amount {
            return Err(Error::InsufficientBalance);
        }
        if self.total_deposited > u64::MAX - amount {
            return Err(Error::ArithmeticOverflow);
        }
        let pool_acct = self.config.pool_account;
        if who != pool_acct && ledger.free_balance(pool_acct) > u64::MAX - amount {
            return Err(Error::ArithmeticOverflow);
        }
        let tr = ledger.transfer(who, pool_acct, amount);
        proof {
            assert(tr is Ok);
        }
        self.last_reward_block = now;
        self.total_deposited = self.total_deposited + amount;
        let acc = self.acc_reward_per_share;
        let ghost s0 = self.spec_deposits();
        match self.find(who) {
            Some(i) => {
                let old_rec = self.deposits[i].1;
                proof {
                    lemma_member_le_sum(s0, i as int);
                }
                let new_amount = old_rec.amount + amount;
                let debt = sat_mul(new_amount, acc) / PRECISION;
                let e = (who, DepositInfo { amount: new_amount, deposit_block: now,
                    reward_debt: debt });
                self.deposits[i] = e;
                proof {
                    lemma_unique_update(s0, i as int, e);
                    lemma_amount_sum_update(s0, i as int, e);
                    lemma_lookup_update(s0, i as int, e, who);
                    assert forall|a: AccountId|
                        a != who implies #[trigger] self.spec_deposit_of(a) == old(
                        self,
                    ).spec_deposit_of(a) by {
                        lemma_lookup_update(s0, i as int, e, a);
                    }
                    assert forall|j: int|
                        0 <= j < self.spec_deposits().len() implies (#[trigger] self.spec_deposits()[j]).1.reward_debt as int
                        <= spec_accrued(self.spec_deposits()[j].1.amount, acc) by {
                        if j != i as int {
                            assert(self.spec_deposits()[j] == s0[j]);
                        }
                    }
                }
            },
            None => {
                let debt = sat_mul(amount, acc) / PRECISION;
                let e = (who, DepositInfo { amount, deposit_block: now, reward_debt: debt });
                proof {
                    lemma_lookup_has(s0, who);
                }
                self.deposits.push(e);
                proof {
                    lemma_unique_push(s0, e);
                    lemma_amount_sum_push(s0, e);
                    lemma_lookup_push(s0, e, who);
                    assert forall|a: AccountId|
                        a != who implies #[trigger] self.spec_deposit_of(a) == old(
                        self,
                    ).spec_deposit_of(a) by {
                        lemma_lookup_push(s0, e, a);
                    }
                    assert forall|j: int|
                        0 <= j < self.spec_deposits().len() implies (#[trigger] self.spec_deposits()[j]).1.reward_debt as int
                        <= spec_accrued(self.spec_deposits()[j].1.amount, acc) by {
                        if j < s0.len() {
                            assert(self.spec_deposits()[j] == s0[j]);
                        }
                    }
                }
            },
        }
        Ok(())
    }

    /// The exact result of `withdraw`, decided against the pre-state.
    pub open spec fn withdraw_outcome(
        self,
        led: Ledger,
        origin: Origin,
        amount: Option<Balance>,
    ) -> Result<(), Error> {
        match origin.spec_signer() {
            None => Err(Error::BadOrigin),
            Some(who) => match self.spec_deposit_of(who) {
                None => Err(Error::NoDeposit),
                Some(d) => {
                    let w = match amount {
                        Some(a) => a,
                        None => d.amount,
                    };
                    let payout = sat_add_spec(w as int, self.spec_pending(who));
                    if w == 0 {
                        Err(Error::ZeroAmount)
                    } else if d.amount < w {
                        Err(Error::InsufficientPoolBalance)
                    } else if (led.spec_free(self.spec_pool_account()) as int) < payout {
                        Err(Error::InsufficientPoolBalance)
                    } else if who != self.spec_pool_account() && led.spec_free(who) as int + payout
                        > u64::MAX as int {
                        Err(Error::ArithmeticOverflow)
                    } else {
                        Ok(())
                    }
                },
            },
        }
    }

    /// Withdraw `amount` of the caller's deposit (all of it when `amount` is
    /// `None`), together with the caller's pending reward. A full withdrawal
    /// deletes the record; a partial one shrinks it and re-bases its reward
    /// debt to the current accumulator value.
    pub fn withdraw(&mut self, ledger: &mut Ledger, origin: Origin, now: BlockNumber,
        amount: Option<Balance>) -> (r: Result<(), Error>)
        requires
            old(self).wf(),
            old(ledger).wf(),
        ensures
            final(self).wf(),
            final(ledger).wf(),
            r == old(self).withdraw_outcome(*old(ledger), origin, amount),
            r is Err ==> *final(self) == *old(self) && *final(ledger) == *old(ledger),
            final(self).spec_acc_reward_per_share() == old(self).spec_acc_reward_per_share(),
            final(self).spec_total_rewards() == old(self).spec_total_rewards(),
            final(self).spec_pool_account() == old(self).spec_pool_account(),
            r is Ok ==> ({
                let who = origin.spec_signer().unwrap();
                let d = old(self).spec_deposit_of(who).unwrap();
                let acc = old(self).spec_acc_reward_per_share();
                let w = match amount {
                    Some(a) => a,
                    None => d.amount,
                };
                let payout = sat_add_spec(w as int, old(self).spec_pending(who));
                let pool_acct = old(self).spec_pool_account();
                &&& (w == d.amount ==> final(self).spec_deposit_of(who) is None)
                &&& (w != d.amount ==> final(self).spec_deposit_of(who) == Some(
                    DepositInfo {
                        amount: (d.amount - w) as u64,
                        deposit_block: d.deposit_block,
                        reward_debt: spec_accrued((d.amount - w) as u64, acc) as u64,
                    },
                ))
                &&& forall|a: AccountId|
                    a != who ==> #[trigger] final(self).spec_deposit_of(a) == old(
                        self,
                    ).spec_deposit_of(a)
                &&& final(self).spec_total_deposited() == old(self).spec_total_deposited() - w
                &&& final(self).spec_last_reward_block() == now
                &&& (who == pool_acct ==> *final(ledger) == *old(ledger))
                &&& (who != pool_acct ==> final(ledger).spec_free(who) == old(ledger).spec_free(
                    who,
                ) + payout)
                &&& (who != pool_acct ==> final(ledger).spec_free(pool_acct) == old(
                    ledger,
                ).spec_free(pool_acct) - payout)
                &&& (who != pool_acct ==> forall|a: AccountId|
                    a != who && a != pool_acct ==> #[trigger] final(ledger).spec_account(a) == old(
                        ledger,
                    ).spec_account(a))
                &&& forall|a: AccountId| #[trigger]
                    final(ledger).spec_lock(a) == old(ledger).spec_lock(a)
            }),
    {
        let who = match origin {
            Origin::Signed(w) => w,
            Origin::Root => {
                return Err(Error::BadOrigin);
            },
        };
        let i = match self.find(who) {
            Some(i) => i,
            None => {
                return Err(Error::NoDeposit);
            },
        };
        let d = self.deposits[i].1;
        let accrued = sat_mul(d.amount, self.acc_reward_per_share) / PRECISION;
        let pending = sat_sub(accrued, d.reward_debt);
        proof {
            assert(pending as int == old(self).spec_pending(who));
        }
        let w = match amount {
            Some(a) => a,
            None => d.amount,
        };
        if w == 0 {
            return Err(Error::ZeroAmount);
        }
        if d.amount < w {
            return Err(Error::InsufficientPoolBalance);
        }
        let payout = sat_add(w, pending);
        let pool_acct = self.config.pool_account;
        if ledger.free_balance(pool_acct) < payout {
            return Err(Error::InsufficientPoolBalance);
        }
        if who != pool_acct && ledger.free_balance(who) > u64::MAX - payout {
            return Err(Error::ArithmeticOverflow);
        }
        let tr = ledger.transfer(pool_acct, who, payout);
        proof {
            assert(tr is Ok);
            lemma_member_le_sum(self.spec_deposits(), i as int);
        }
        self.last_reward_block = now;
        self.total_deposited = self.total_deposited - w;
        let ghost s0 = self.spec_deposits();
        if w == d.amount {
            self.deposits.remove(i);
            proof {
                lemma_unique_remove(s0, i as int);
                lemma_amount_sum_remove(s0, i as int);
                lemma_lookup_remove(s0, i as int, who);
                assert forall|a: AccountId|
                    a != who implies #[trigger] self.spec_deposit_of(a) == old(
                    self,
                ).spec_deposit_of(a) by {
                    lemma_lookup_remove(s0, i as int, a);
                }
                assert forall|j: int|
                    0 <= j < self.spec_deposits().len() implies (#[trigger] self.spec_deposits()[j]).1.reward_debt as int
                    <= spec_accrued(
                    self.spec_deposits()[j].1.amount,
                    self.spec_acc_reward_per_share(),
                ) by {
                    let j0: int = if j < i as int {
                        j
                    } else {
                        j + 1
                    };
                    assert(self.spec_deposits()[j] == s0[j0]);
                }
            }
        } else {
            let new_amount = d.amount - w;
            let debt = sat_mul(new_amount, self.acc_reward_per_share) / PRECISION;
            let e = (who, DepositInfo { amount: new_amount, deposit_block: d.deposit_block,
                reward_debt: debt });
            self.deposits[i] = e;
            proof {
                lemma_unique_update(s0, i as int, e);
                lemma_amount_sum_update(s0, i as int, e);
                lemma_lookup_update(s0, i as int, e, who);
                assert forall|a: AccountId|
                    a != who implies #[trigger] self.spec_deposit_of(a) == old(
                    self,
                ).spec_deposit_of(a) by {
                    lemma_lookup_update(s0, i as int, e, a);
                }
                assert forall|j: int|
                    0 <= j < self.spec_deposits().len() implies (#[trigger] self.spec_deposits()[j]).1.reward_debt as int
                    <= spec_accrued(
                    self.spec_deposits()[j].1.amount,
                    self.spec_acc_reward_per_share(),
                ) by {
                    if j != i as int {
                        assert(self.spec_deposits()[j] == s0[j]);
                    }
                }
            }
        }
        Ok(())
    }

    /// The exact result of `claim_rewards`, decided against the pre-state.
    pub open spec fn claim_rewards_outcome(self, led: Ledger, origin: Origin) -> Result<
        (),
        Error,
    > {
        match origin.spec_signer() {
            None => Err(Error::BadOrigin),
            Some(who) => match self.spec_deposit_of(who) {
                None => Err(Error::NoDeposit),
                Some(d) => {
                    let pending = self.spec_pending(who);
                    if pending == 0 {
                        Err(Error::ZeroAmount)
                    } else if (led.spec_free(self.spec_pool_account()) as int) < pending {
                        Err(Error::InsufficientPoolBalance)
                    } else if who != self.spec_pool_account() && led.spec_free(who) as int + pending
                        > u64::MAX as int {
                        Err(Error::ArithmeticOverflow)
                    } else {
                        Ok(())
                    }
                },
            },
        }
    }

    /// Pay out the caller's pending reward without touching the deposit.
    /// On success the record's reward debt is re-based to the current
    /// accumulator value, so the pending reward becomes zero.
    pub fn claim_rewards(&mut self, ledger: &mut Ledger, origin: Origin, now: BlockNumber) -> (r:
        Result<(), Error>)
        requires
            old(self).wf(),
            old(ledger).wf(),
        ensures
            final(self).wf(),
            final(ledger).wf(),
            r == old(self).claim_rewards_outcome(*old(ledger), origin),
            r is Err ==> *final(self) == *old(self) && *final(ledger) == *old(ledger),
            final(self).spec_acc_reward_per_share() == old(self).spec_acc_reward_per_share(),
            final(self).spec_total_rewards() == old(self).spec_total_rewards(),
            final(self).spec_total_deposited() == old(self).spec_total_deposited(),
            final(self).spec_pool_account() == old(self).spec_pool_account(),
            r is Ok ==> ({
                let who = origin.spec_signer().unwrap();
                let d = old(self).spec_deposit_of(who).unwrap();
                let acc = old(self).spec_acc_reward_per_share();
                let pending = old(self).spec_pending(who);
                let pool_acct = old(self).spec_pool_account();
                &&& final(self).spec_deposit_of(who) == Some(
                    DepositInfo {
                        amount: d.amount,
                        deposit_block: d.deposit_block,
                        reward_debt: spec_accrued(d.amount, acc) as u64,
                    },
                )
                &&& final(self).spec_pending(who) == 0
                &&& forall|a: AccountId|
                    a != who ==> #[trigger] final(self).spec_deposit_of(a) == old(
                        self,
                    ).spec_deposit_of(a)
                &&& final(self).spec_last_reward_block() == now
                &&& (who == pool_acct ==> *final(ledger) == *old(ledger))
                &&& (who != pool_acct ==> final(ledger).spec_free(who) == old(ledger).spec_free(
                    who,
                ) + pending)
                &&& (who != pool_acct ==> final(ledger).spec_free(pool_acct) == old(
                    ledger,
                ).spec_free(pool_acct) - pending)
                &&& (who != pool_acct ==> forall|a: AccountId|
                    a != who && a != pool_acct ==> #[trigger] final(ledger).spec_account(a) == old(
                        ledger,
                    ).spec_account(a))
                &&& forall|a: AccountId| #[trigger]
                    final(ledger).spec_lock(a) == old(ledger).spec_lock(a)
            }),
    {
        let who = match origin {
            Origin::Signed(w) => w,
            Origin::Root => {
                return Err(Error::BadOrigin);
            },
        };
        let i = match self.find(who) {
            Some(i) => i,
            None => {
                return Err(Error::NoDeposit);
            },
        };
        let d = self.deposits[i].1;
        let accrued = sat_mul(d.amount, self.acc_reward_per_share) / PRECISION;
        let pending = sat_sub(accrued, d.reward_debt);
        proof {
            assert(pending as int == old(self).spec_pending(who));
        }
        if pending == 0 {
            return Err(Error::ZeroAmount);
        }
        let pool_acct = self.config.pool_account;
        if ledger.free_balance(pool_acct) < pending {
            return Err(Error::InsufficientPoolBalance);
        }
        if who != pool_acct && ledger.free_balance(who) > u64::MAX - pending {
            return Err(Error::ArithmeticOverflow);
        }
        let tr = ledger.transfer(pool_acct, who, pending);
        proof {
            assert(tr is Ok);
        }
        self.last_reward_block = now;
        let ghost s0 = self.spec_deposits();
        let e = (who, DepositInfo { amount: d.amount, deposit_block: d.deposit_block,
            reward_debt: accrued });
        self.deposits[i] = e;
        proof {
            lemma_unique_update(s0, i as int, e);
            lemma_amount_sum_update(s0, i as int, e);
            lemma_lookup_update(s0, i as int, e, who);
            assert forall|a: AccountId|
                a != who implies #[trigger] self.spec_deposit_of(a) == old(
                self,
            ).spec_deposit_of(a) by {
                lemma_lookup_update(s0, i as int, e, a);
            }
            assert forall|j: int|
                0 <= j < self.spec_deposits().len() implies (#[trigger] self.spec_deposits()[j]).1.reward_debt as int
                <= spec_accrued(
                self.spec_deposits()[j].1.amount,
                self.spec_acc_reward_per_share(),
            ) by {
                if j != i as int {
                    assert(self.spec_deposits()[j] == s0[j]);
                }
            }
        }
        Ok(())
    }

    /// The exact result of `deposit_rewards`, decided against the pre-state.
    pub open spec fn deposit_rewards_outcome(self, led: Ledger, origin: Origin,
        amount: Balance) -> Result<(), Error> {
        match origin.spec_signer() {
            None => Err(Error::BadOrigin),
            Some(who) => if amount == 0 {
                Err(Error::ZeroAmount)
            } else if self.spec_total_deposited() == 0 {
                Err(Error::ArithmeticOverflow)
            } else if led.spec_free(who) < amount {
                Err(Error::InsufficientBalance)
            } else if who != self.spec_pool_account() && led.spec_free(self.spec_pool_account())
                as int + amount as int > u64::MAX as int {
                Err(Error::ArithmeticOverflow)
            } else {
                Ok(())
            },
        }
    }

    /// Inject `amount` of reward into the pool (reward-origin only: the call
    /// must be signed). The reward moves from the caller to the pool account
    /// and advances the accumulator by `amount * PRECISION / total_deposited`;
    /// with no depositors the call is rejected rather than stranding funds.
    pub fn deposit_rewards(&mut self, ledger: &mut Ledger, origin: Origin, now: BlockNumber,
        amount: Balance) -> (r: Result<(), Error>)
        requires
            old(self).wf(),
            old(ledger).wf(),
        ensures
            final(self).wf(),
            final(ledger).wf(),
            r == old(self).deposit_rewards_outcome(*old(ledger), origin, amount),
            r is Err ==> *final(self) == *old(self) && *final(ledger) == *old(ledger),
            final(self).spec_acc_reward_per_share() >= old(self).spec_acc_reward_per_share(),
            r is Ok && old(self).spec_acc_reward_per_share() < u64::MAX && sat_mul_spec(
                amount as int,
                PRECISION as int,
            ) / (old(self).spec_total_deposited() as int) > 0
                ==> final(self).spec_acc_reward_per_share() > old(
                self,
            ).spec_acc_reward_per_share(),
            final(self).spec_total_deposited() == old(self).spec_total_deposited(),
            final(self).spec_pool_account() == old(self).spec_pool_account(),
            final(self).spec_deposits() == old(self).spec_deposits(),
            r is Ok ==> ({
                let who = origin.spec_signer().unwrap();
                let pool_acct = old(self).spec_pool_account();
                &&& final(self).spec_total_rewards() as int == sat_add_spec(
                    old(self).spec_total_rewards() as int,
                    amount as int,
                )
                &&& final(self).spec_acc_reward_per_share() as int == sat_add_spec(
                    old(self).spec_acc_reward_per_share() as int,
                    sat_mul_spec(amount as int, PRECISION as int) / (
                    old(self).spec_total_deposited() as int),
                )
                &&& final(self).spec_last_reward_block() == now
                &&& (who == pool_acct ==> *final(ledger) == *old(ledger))
                &&& (who != pool_acct ==> final(ledger).spec_free(who) == old(ledger).spec_free(
                    who,
                ) - amount)
                &&& (who != pool_acct ==> final(ledger).spec_free(pool_acct) == old(
                    ledger,
                ).spec_free(pool_acct) + amount)
                &&& (who != pool_acct ==> forall|a: AccountId|
                    a != who && a != pool_acct ==> #[trigger] final(ledger).spec_account(a) == old(
                        ledger,
                    ).spec_account(a))
                &&& forall|a: AccountId| #[trigger]
                    final(ledger).spec_lock(a) == old(ledger).spec_lock(a)
            }),
    {
        let who = match origin {
            Origin::Signed(w) => w,
            Origin::Root => {
                return Err(Error::BadOrigin);
            },
        };
        if amount == 0 {
            return Err(Error::ZeroAmount);
        }
        if self.total_deposited == 0 {
            return Err(Error::ArithmeticOverflow);
        }
        if ledger.free_balance(who) < amount {
            return Err(Error::InsufficientBalance);
        }
        let pool_acct = self.config.pool_account;
        if who != pool_acct && ledger.free_balance(pool_acct) > u64::MAX - amount {
            return Err(Error::ArithmeticOverflow);
        }
        let tr = ledger.transfer(who, pool_acct, amount);
        proof {
            assert(tr is Ok);
        }
        self.last_reward_block = now;
        self.total_rewards = sat_add(self.total_rewards, amount);
        let increase = sat_mul(amount, PRECISION) / self.total_deposited;
        let ghost acc0 = self.acc_reward_per_share;
        self.acc_reward_per_share = sat_add(self.acc_reward_per_share, increase);
        proof {
            assert(self.acc_reward_per_share >= acc0);
            assert forall|j: int|
                0 <= j < self.spec_deposits().len() implies (#[trigger] self.spec_deposits()[j]).1.reward_debt as int
                <= spec_accrued(
                self.spec_deposits()[j].1.amount,
                self.spec_acc_reward_per_share(),
            ) by {
                lemma_accrued_mono(self.spec_deposits()[j].1.amount, acc0,
                    self.acc_reward_per_share);
            }
        }
        Ok(())
    }

    /// Conservation: in any well-formed pool state, `total_deposited` equals
    /// the sum of the live deposit-record amounts; every operation of this
    /// accountant preserves well-formedness, so the equality holds across
    /// any sequence of calls.
    pub proof fn lemma_conservation(p: Pallet)
        requires
            p.wf(),
        ensures
            p.spec_total_deposited() as int == amount_sum(p.spec_deposits()),
    {
    }

    /// Non-negative pending reward: in any well-formed pool state, the
    /// settled pending reward of any account with a live deposit is at
    /// least zero.
    pub proof fn lemma_pending_nonneg(p: Pallet, who: AccountId)
        requires
            p.wf(),
            p.spec_deposit_of(who) is Some,
        ensures
            p.spec_pending(who) >= 0,
    {
        lemma_lookup_index_of(p.spec_deposits(), who);
    }
}

} // verus!
