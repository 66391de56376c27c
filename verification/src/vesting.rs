//! The vesting accountant: per-account bounded collections of linear unlock
//! schedules, and the balance lock derived from them.
//!
//! A schedule `(start, period, period_count, per_period)` unlocks
//! `per_period` at each of `period_count` steps of `period` blocks,
//! beginning at block `start`. The amount still locked for an account is the
//! sum over its schedules of `total_amount - vested(now)`; after every
//! schedule mutation the accountant recomputes that sum and republishes the
//! account's lock in the host ledger, removing the lock when the sum is
//! zero.

use vstd::prelude::*;

use crate::alist::{
    alist_find, alist_lookup, alist_unique, lemma_lookup_at_index, lemma_lookup_has,
    lemma_lookup_index_of, lemma_lookup_push, lemma_lookup_update, lemma_unique_push,
    lemma_unique_update,
};
use crate::ledger::Ledger;
use crate::numeric::{checked_mul, lemma_sat_mul_bounds, lemma_sat_mul_mono, sat_add, sat_mul,
    sat_mul_spec, sat_sub, sat_sub_spec};
use crate::{AccountId, Balance, BlockNumber, Origin};

verus! {

/// A linear unlock descriptor.
#[derive(Clone, Copy, Debug, PartialEq, Eq, Structural)]
pub struct VestingSchedule {
    /// Block at which the unlock begins.
    pub start: BlockNumber,
    /// Blocks between unlock increments; must be positive to be stored.
    pub period: BlockNumber,
    /// Number of unlock increments.
    pub period_count: u32,
    /// Amount unlocked per increment.
    pub per_period: Balance,
}

/// Why a vesting operation was rejected. A rejected operation changes
/// nothing.
#[derive(Clone, Copy, Debug, PartialEq, Eq, Structural)]
pub enum Error {
    /// The caller lacks the capability the operation demands.
    BadOrigin,
    /// The schedule's period is zero.
    ZeroVestingPeriod,
    /// The schedule's period count is zero.
    ZeroVestingPeriodCount,
    /// The schedule's per-period amount is zero.
    ZeroPerPeriodVested,
    /// The account's free balance is below the amount to lock.
    InsufficientBalanceToLock,
    /// The account already holds the maximum number of schedules.
    TooManyVestingSchedules,
    /// The transferred total is below the configured minimum.
    AmountLow,
    /// Nothing is vested.
    NotVested,
    /// No schedule exists at the given index.
    InvalidVestingIndex,
    /// An arithmetic bound was exceeded.
    ArithmeticOverflow,
    /// The schedule would not start strictly in the future.
    InvalidVestingStart,
}

/// Configuration of the vesting accountant.
#[derive(Clone, Copy, Debug, PartialEq, Eq, Structural)]
pub struct Config {
    /// Most schedules one account may hold.
    pub max_vesting_schedules: u32,
    /// Smallest total a vested transfer may carry.
    pub min_vested_transfer: Balance,
}

/// Exact total of a schedule: `per_period * period_count`.
pub open spec fn spec_total_amount(s: VestingSchedule) -> int {
    s.per_period as int * s.period_count as int
}

/// Amount unlocked by `s` at block `now`: zero before `start`, then
/// `per_period` per elapsed period, capped at `period_count` periods, the
/// product saturating as stored.
pub open spec fn spec_vested(s: VestingSchedule, now: BlockNumber) -> int {
    if now < s.start {
        0
    } else {
        let elapsed_periods = (now - s.start) as int / s.period as int;
        let capped = if elapsed_periods < s.period_count as int {
            elapsed_periods
        } else {
            s.period_count as int
        };
        sat_mul_spec(capped, s.per_period as int)
    }
}

/// Amount still locked by `s` at block `now`. A schedule whose total
/// overflows the balance type counts as locking nothing, as stored.
pub open spec fn spec_locked(s: VestingSchedule, now: BlockNumber) -> int {
    let total = if spec_total_amount(s) <= u64::MAX as int {
        spec_total_amount(s)
    } else {
        0
    };
    sat_sub_spec(total, spec_vested(s, now))
}

/// Every schedule in the sequence has a positive period, so its vested and
/// locked amounts are well defined.
pub open spec fn all_periods_positive(ss: Seq<VestingSchedule>) -> bool {
    forall|i: int| 0 <= i < ss.len() ==> (#[trigger] ss[i]).period > 0
}

/// Sum of `spec_locked` over a sequence of schedules.
pub open spec fn locked_sum(ss: Seq<VestingSchedule>, now: BlockNumber) -> int
    decreases ss.len(),
{
    if ss.len() == 0 {
        0
    } else {
        spec_locked(ss[0], now) + locked_sum(ss.drop_first(), now)
    }
}

/// Sum of `spec_vested` over a sequence of schedules.
pub open spec fn vested_sum(ss: Seq<VestingSchedule>, now: BlockNumber) -> int
    decreases ss.len(),
{
    if ss.len() == 0 {
        0
    } else {
        spec_vested(ss[0], now) + vested_sum(ss.drop_first(), now)
    }
}

/// The vested amount is non-negative and bounded by the schedule's total.
pub proof fn lemma_vested_bounds(s: VestingSchedule, now: BlockNumber)
    requires
        s.period > 0,
    ensures
        0 <= spec_vested(s, now) <= spec_total_amount(s),
        spec_vested(s, now) <= u64::MAX as int,
{
    if now < s.start {
        assert(0 <= spec_total_amount(s)) by (nonlinear_arith);
    } else {
        let elapsed_periods = (now - s.start) as int / s.period as int;
        let capped = if elapsed_periods < s.period_count as int {
            elapsed_periods
        } else {
            s.period_count as int
        };
        vstd::arithmetic::div_mod::lemma_div_pos_is_pos((now - s.start) as int, s.period as int);
        lemma_sat_mul_bounds(capped, s.per_period as int);
        assert(capped * s.per_period as int <= s.period_count as int * s.per_period as int)
            by (nonlinear_arith)
            requires
                0 <= capped <= s.period_count as int,
                0 <= s.per_period as int,
        ;
        assert(s.period_count as int * s.per_period as int == spec_total_amount(s))
            by (nonlinear_arith);
    }
}

/// The locked amount is non-negative and fits the balance type.
pub proof fn lemma_locked_bounds(s: VestingSchedule, now: BlockNumber)
    requires
        s.period > 0,
    ensures
        0 <= spec_locked(s, now) <= u64::MAX as int,
{
    lemma_vested_bounds(s, now);
}

/// Sums of locked amounts are non-negative.
pub proof fn lemma_locked_sum_nonneg(ss: Seq<VestingSchedule>, now: BlockNumber)
    requires
        all_periods_positive(ss),
    ensures
        locked_sum(ss, now) >= 0,
    decreases ss.len(),
{
    if ss.len() > 0 {
        lemma_locked_bounds(ss[0], now);
        assert forall|i: int| 0 <= i < ss.drop_first().len() implies (#[trigger] ss.drop_first()[i]).period
            > 0 by {
            assert(ss.drop_first()[i] == ss[i + 1]);
        }
        lemma_locked_sum_nonneg(ss.drop_first(), now);
    }
}

/// Sums of vested amounts are non-negative.
pub proof fn lemma_vested_sum_nonneg(ss: Seq<VestingSchedule>, now: BlockNumber)
    requires
        all_periods_positive(ss),
    ensures
        vested_sum(ss, now) >= 0,
    decreases ss.len(),
{
    if ss.len() > 0 {
        lemma_vested_bounds(ss[0], now);
        assert forall|i: int| 0 <= i < ss.drop_first().len() implies (#[trigger] ss.drop_first()[i]).period
            > 0 by {
            assert(ss.drop_first()[i] == ss[i + 1]);
        }
        lemma_vested_sum_nonneg(ss.drop_first(), now);
    }
}

/// A locked sum splits across a prefix and the matching suffix.
pub proof fn lemma_locked_sum_split(ss: Seq<VestingSchedule>, now: BlockNumber, i: int)
    requires
        0 <= i <= ss.len(),
    ensures
        locked_sum(ss, now) == locked_sum(ss.take(i), now) + locked_sum(ss.skip(i), now),
    decreases i,
{
    if i == 0 {
        assert(ss.take(0) =~= Seq::<VestingSchedule>::empty());
        assert(ss.skip(0) =~= ss);
    } else {
        assert(ss.take(i)[0] == ss[0]);
        assert(ss.take(i).drop_first() =~= ss.drop_first().take(i - 1));
        assert(ss.skip(i) =~= ss.drop_first().skip(i - 1));
        lemma_locked_sum_split(ss.drop_first(), now, i - 1);
    }
}

/// A vested sum splits across a prefix and the matching suffix.
pub proof fn lemma_vested_sum_split(ss: Seq<VestingSchedule>, now: BlockNumber, i: int)
    requires
        0 <= i <= ss.len(),
    ensures
        vested_sum(ss, now) == vested_sum(ss.take(i), now) + vested_sum(ss.skip(i), now),
    decreases i,
{
    if i == 0 {
        assert(ss.take(0) =~= Seq::<VestingSchedule>::empty());
        assert(ss.skip(0) =~= ss);
    } else {
        assert(ss.take(i)[0] == ss[0]);
        assert(ss.take(i).drop_first() =~= ss.drop_first().take(i - 1));
        assert(ss.skip(i) =~= ss.drop_first().skip(i - 1));
        lemma_vested_sum_split(ss.drop_first(), now, i - 1);
    }
}

/// Stepping a prefix of a locked sum adds the element at its border.
pub proof fn lemma_locked_sum_take_step(ss: Seq<VestingSchedule>, now: BlockNumber, i: int)
    requires
        0 <= i < ss.len(),
    ensures
        locked_sum(ss.take(i + 1), now) == locked_sum(ss.take(i), now) + spec_locked(ss[i], now),
{
    lemma_locked_sum_split(ss.take(i + 1), now, i);
    assert(ss.take(i + 1).take(i) =~= ss.take(i));
    let tail = ss.take(i + 1).skip(i);
    assert(tail.len() == 1);
    assert(tail[0] == ss[i]);
    assert(tail.drop_first() =~= Seq::<VestingSchedule>::empty());
    assert(locked_sum(Seq::<VestingSchedule>::empty(), now) == 0);
    assert(locked_sum(tail, now) == spec_locked(tail[0], now) + locked_sum(tail.drop_first(), now));
}

/// Stepping a prefix of a vested sum adds the element at its border.
pub proof fn lemma_vested_sum_take_step(ss: Seq<VestingSchedule>, now: BlockNumber, i: int)
    requires
        0 <= i < ss.len(),
    ensures
        vested_sum(ss.take(i + 1), now) == vested_sum(ss.take(i), now) + spec_vested(ss[i], now),
{
    lemma_vested_sum_split(ss.take(i + 1), now, i);
    assert(ss.take(i + 1).take(i) =~= ss.take(i));
    let tail = ss.take(i + 1).skip(i);
    assert(tail.len() == 1);
    assert(tail[0] == ss[i]);
    assert(tail.drop_first() =~= Seq::<VestingSchedule>::empty());
    assert(vested_sum(Seq::<VestingSchedule>::empty(), now) == 0);
    assert(vested_sum(tail, now) == spec_vested(tail[0], now) + vested_sum(tail.drop_first(), now));
}

/// Any prefix of a locked sum is bounded by the whole sum.
pub proof fn lemma_locked_sum_prefix_le(ss: Seq<VestingSchedule>, now: BlockNumber, i: int)
    requires
        0 <= i <= ss.len(),
        all_periods_positive(ss),
    ensures
        locked_sum(ss.take(i), now) <= locked_sum(ss, now),
{
    lemma_locked_sum_split(ss, now, i);
    assert forall|j: int| 0 <= j < ss.skip(i).len() implies (#[trigger] ss.skip(i)[j]).period
        > 0 by {
        assert(ss.skip(i)[j] == ss[j + i]);
    }
    lemma_locked_sum_nonneg(ss.skip(i), now);
}

/// Vesting is a non-decreasing step function of the block height: no later
/// block ever shows less vested than an earlier one.
pub proof fn lemma_vested_monotonic(s: VestingSchedule, t1: BlockNumber, t2: BlockNumber)
    requires
        s.period > 0,
        t1 <= t2,
    ensures
        spec_vested(s, t1) <= spec_vested(s, t2),
{
    if t2 < s.start {
    } else if t1 < s.start {
        lemma_vested_bounds(s, t2);
    } else {
        let e1 = (t1 - s.start) as int;
        let e2 = (t2 - s.start) as int;
        let d = s.period as int;
        vstd::arithmetic::div_mod::lemma_div_is_ordered(e1, e2, d);
        vstd::arithmetic::div_mod::lemma_div_pos_is_pos(e1, d);
        let c1 = if e1 / d < s.period_count as int {
            e1 / d
        } else {
            s.period_count as int
        };
        let c2 = if e2 / d < s.period_count as int {
            e2 / d
        } else {
            s.period_count as int
        };
        lemma_sat_mul_mono(c1, c2, s.per_period as int, s.per_period as int);
    }
}

/// Once all periods have elapsed, the schedule is fully vested and locks
/// nothing.
pub proof fn lemma_vested_complete(s: VestingSchedule, t: BlockNumber)
    requires
        s.period > 0,
        s.start as int + s.period as int * s.period_count as int <= t as int,
    ensures
        spec_locked(s, t) == 0,
        spec_total_amount(s) <= u64::MAX as int ==> spec_vested(s, t) == spec_total_amount(s),
{
    assert(0 <= s.period as int * s.period_count as int) by (nonlinear_arith)
        requires
            0 <= s.period as int,
            0 <= s.period_count as int,
    ;
    assert(t >= s.start);
    let e = (t - s.start) as int;
    let d = s.period as int;
    let c = s.period_count as int;
    vstd::arithmetic::div_mod::lemma_div_is_ordered(d * c, e, d);
    vstd::arithmetic::div_mod::lemma_div_multiples_vanish(c, d);
    assert(e / d >= c);
    assert(spec_vested(s, t) == sat_mul_spec(c, s.per_period as int));
    assert(s.period_count as int * s.per_period as int == s.per_period as int
        * s.period_count as int) by (nonlinear_arith);
}

/// An account whose every schedule has fully elapsed has nothing locked.
pub proof fn lemma_locked_sum_zero(ss: Seq<VestingSchedule>, t: BlockNumber)
    requires
        all_periods_positive(ss),
        forall|i: int|
            0 <= i < ss.len() ==> (#[trigger] ss[i]).start as int + ss[i].period as int
                * ss[i].period_count as int <= t as int,
    ensures
        locked_sum(ss, t) == 0,
    decreases ss.len(),
{
    if ss.len() > 0 {
        lemma_vested_complete(ss[0], t);
        assert forall|i: int|
            0 <= i < ss.drop_first().len() implies (#[trigger] ss.drop_first()[i]).period > 0 && ss.drop_first()[i].start as int
            + ss.drop_first()[i].period as int * ss.drop_first()[i].period_count as int
            <= t as int by {
            assert(ss.drop_first()[i] == ss[i + 1]);
        }
        lemma_locked_sum_zero(ss.drop_first(), t);
    }
}

/// Over-claiming is idempotent: once every schedule of `who` has fully
/// elapsed, `claim` succeeds and computes a zero locked total, and so does
/// any repeated claim at the same or a later block — `claim` itself never
/// moves tokens or alters the schedules, as its contract states.
pub proof fn lemma_overclaim_idempotent(
    v: Pallet,
    who: AccountId,
    t1: BlockNumber,
    t2: BlockNumber,
)
    requires
        v.wf(),
        t1 <= t2,
        forall|i: int|
            0 <= i < v.spec_schedules_of(who).len() ==> (#[trigger] v.spec_schedules_of(
                who,
            )[i]).start as int + v.spec_schedules_of(who)[i].period as int * v.spec_schedules_of(
                who,
            )[i].period_count as int <= t1 as int,
    ensures
        locked_sum(v.spec_schedules_of(who), t1) == 0,
        locked_sum(v.spec_schedules_of(who), t2) == 0,
        v.claim_outcome(Origin::Signed(who), t1) is Ok,
        v.claim_outcome(Origin::Signed(who), t2) is Ok,
{
    v.lemma_schedules_of_wf(who);
    lemma_locked_sum_zero(v.spec_schedules_of(who), t1);
    lemma_locked_sum_zero(v.spec_schedules_of(who), t2);
}

/// Checked sum of the locked amounts of `ss` at block `now`.
fn locked_total(ss: &Vec<VestingSchedule>, now: BlockNumber) -> (r: Result<u64, Error>)
    requires
        all_periods_positive(ss@),
    ensures
        match r {
            Ok(t) => t as int == locked_sum(ss@, now) && locked_sum(ss@, now) <= u64::MAX as int,
            Err(e) => e == Error::ArithmeticOverflow && locked_sum(ss@, now) > u64::MAX as int,
        },
{
    let mut total: u64 = 0;
    let mut i: usize = 0;
    while i < ss.len()
        invariant
            i <= ss@.len(),
            all_periods_positive(ss@),
            total as int == locked_sum(ss@.take(i as int), now),
        decreases ss@.len() - i,
    {
        let la = ss[i].locked_amount(now);
        proof {
            lemma_locked_sum_take_step(ss@, now, i as int);
            lemma_locked_sum_prefix_le(ss@, now, i as int + 1);
        }
        if total > u64::MAX - la {
            return Err(Error::ArithmeticOverflow);
        }
        total = total + la;
        i = i + 1;
    }
    proof {
        assert(ss@.take(i as int) =~= ss@);
    }
    Ok(total)
}

/// Saturating sum of the vested amounts of `ss` at block `now`: the exact
/// sum when it fits the balance type, and `u64::MAX` otherwise.
fn vested_total_saturating(ss: &Vec<VestingSchedule>, now: BlockNumber) -> (r: u64)
    requires
        all_periods_positive(ss@),
    ensures
        r as int == (if vested_sum(ss@, now) <= u64::MAX as int {
            vested_sum(ss@, now)
        } else {
            u64::MAX as int
        }),
{
    let mut total: u64 = 0;
    let mut i: usize = 0;
    while i < ss.len()
        invariant
            i <= ss@.len(),
            all_periods_positive(ss@),
            total as int == (if vested_sum(ss@.take(i as int), now) <= u64::MAX as int {
                vested_sum(ss@.take(i as int), now)
            } else {
                u64::MAX as int
            }),
        decreases ss@.len() - i,
    {
        let va = ss[i].vested_amount(now);
        proof {
            lemma_vested_sum_take_step(ss@, now, i as int);
            assert forall|j: int|
                0 <= j < ss@.take(i as int).len() implies (#[trigger] ss@.take(
                i as int,
            )[j]).period > 0 by {
                assert(ss@.take(i as int)[j] == ss@[j]);
            }
            lemma_vested_sum_nonneg(ss@.take(i as int), now);
        }
        total = sat_add(total, va);
        i = i + 1;
    }
    proof {
        assert(ss@.take(i as int) =~= ss@);
    }
    total
}

/// Saturating sum of the locked amounts of `ss` at block `now`: the exact
/// sum when it fits the balance type, and `u64::MAX` otherwise.
fn locked_total_saturating(ss: &Vec<VestingSchedule>, now: BlockNumber) -> (r: u64)
    requires
        all_periods_positive(ss@),
    ensures
        r as int == (if locked_sum(ss@, now) <= u64::MAX as int {
            locked_sum(ss@, now)
        } else {
            u64::MAX as int
        }),
{
    let mut total: u64 = 0;
    let mut i: usize = 0;
    while i < ss.len()
        invariant
            i <= ss@.len(),
            all_periods_positive(ss@),
            total as int == (if locked_sum(ss@.take(i as int), now) <= u64::MAX as int {
                locked_sum(ss@.take(i as int), now)
            } else {
                u64::MAX as int
            }),
        decreases ss@.len() - i,
    {
        let la = ss[i].locked_amount(now);
        proof {
            lemma_locked_sum_take_step(ss@, now, i as int);
            assert forall|j: int|
                0 <= j < ss@.take(i as int).len() implies (#[trigger] ss@.take(
                i as int,
            )[j]).period > 0 by {
                assert(ss@.take(i as int)[j] == ss@[j]);
            }
            lemma_locked_sum_nonneg(ss@.take(i as int), now);
        }
        total = sat_add(total, la);
        i = i + 1;
    }
    proof {
        assert(ss@.take(i as int) =~= ss@);
    }
    total
}

/// The vesting accountant's entire state.
pub struct Pallet {
    config: Config,
    entries: Vec<(AccountId, Vec<VestingSchedule>)>,
}

impl Pallet {
    pub closed spec fn spec_entries(self) -> Seq<(AccountId, Vec<VestingSchedule>)> {
        self.entries@
    }

    pub closed spec fn spec_max_vesting_schedules(self) -> u32 {
        self.config.max_vesting_schedules
    }

    pub closed spec fn spec_min_vested_transfer(self) -> Balance {
        self.config.min_vested_transfer
    }

    /// The schedules of `who`; accounts without an entry hold none.
    pub open spec fn spec_schedules_of(self, who: AccountId) -> Seq<VestingSchedule> {
        match alist_lookup(self.spec_entries(), who) {
            Some(v) => v@,
            None => Seq::<VestingSchedule>::empty(),
        }
    }

    /// Well-formed vesting state: one entry per account, no account over the
    /// configured capacity, and every stored schedule has a positive period.
    pub open spec fn wf(self) -> bool {
        &&& alist_unique(self.spec_entries())
        &&& forall|i: int|
            0 <= i < self.spec_entries().len() ==> (#[trigger] self.spec_entries()[i]).1@.len()
                <= self.spec_max_vesting_schedules()
        &&& forall|i: int|
            0 <= i < self.spec_entries().len() ==> all_periods_positive(
                (#[trigger] self.spec_entries()[i]).1@,
            )
    }

    /// Any account's schedule list is within capacity and has positive
    /// periods throughout.
    pub proof fn lemma_schedules_of_wf(self, who: AccountId)
        requires
            self.wf(),
        ensures
            all_periods_positive(self.spec_schedules_of(who)),
            self.spec_schedules_of(who).len() <= self.spec_max_vesting_schedules(),
    {
        if alist_lookup(self.spec_entries(), who) is Some {
            lemma_lookup_index_of(self.spec_entries(), who);
        }
    }

    /// An empty vesting accountant with the given configuration.
    pub fn new(config: Config) -> (r: Pallet)
        ensures
            r.wf(),
            r.spec_max_vesting_schedules() == config.max_vesting_schedules,
            r.spec_min_vested_transfer() == config.min_vested_transfer,
            forall|a: AccountId| (#[trigger] r.spec_schedules_of(a)).len() == 0,
    {
        let r = Pallet { config, entries: Vec::new() };
        proof {
            assert forall|a: AccountId| (#[trigger] r.spec_schedules_of(a)).len() == 0 by {
                assert(r.spec_entries().len() == 0);
            }
        }
        r
    }

    /// Position of `who`'s entry, if one exists.
    fn find(&self, who: AccountId) -> (r: Option<usize>)
        requires
            alist_unique(self.spec_entries()),
        ensures
            match r {
                Some(i) => {
                    &&& i < self.spec_entries().len()
                    &&& self.spec_entries()[i as int].0 == who
                    &&& alist_lookup(self.spec_entries(), who) == Some(
                        self.spec_entries()[i as int].1,
                    )
                },
                None => alist_lookup(self.spec_entries(), who) is None,
            },
    {
        let r = alist_find(&self.entries, who);
        proof {
            match r {
                Some(i) => {
                    lemma_lookup_at_index(self.spec_entries(), who, i as int);
                },
                None => {
                    lemma_lookup_has(self.spec_entries(), who);
                },
            }
        }
        r
    }

    /// A copy of `who`'s schedules, in storage order.
    pub fn vesting_schedules(&self, who: AccountId) -> (r: Vec<VestingSchedule>)
        requires
            self.wf(),
        ensures
            r@ == self.spec_schedules_of(who),
    {
        let mut out: Vec<VestingSchedule> = Vec::new();
        let i = match self.find(who) {
            Some(i) => i,
            None => {
                proof {
                    assert(out@ =~= self.spec_schedules_of(who));
                }
                return out;
            },
        };
        let n = self.entries[i].1.len();
        let mut j: usize = 0;
        while j < n
            invariant
                self.wf(),
                i < self.spec_entries().len(),
                alist_lookup(self.spec_entries(), who) == Some(self.spec_entries()[i as int].1),
                n == self.spec_entries()[i as int].1@.len(),
                j <= n,
                out@ =~= self.spec_entries()[i as int].1@.take(j as int),
            decreases n - j,
        {
            out.push(self.entries[i].1[j]);
            j = j + 1;
        }
        proof {
            assert(self.spec_entries()[i as int].1@.take(n as int) =~= self.spec_entries()[i as int].1@);
        }
        out
    }

    /// Overwrite or create `who`'s schedule list.
    fn put_schedules(&mut self, who: AccountId, ss: Vec<VestingSchedule>)
        requires
            old(self).wf(),
            ss@.len() <= old(self).spec_max_vesting_schedules(),
            all_periods_positive(ss@),
        ensures
            final(self).wf(),
            final(self).spec_max_vesting_schedules() == old(self).spec_max_vesting_schedules(),
            final(self).spec_min_vested_transfer() == old(self).spec_min_vested_transfer(),
            final(self).spec_schedules_of(who) == ss@,
            forall|a: AccountId|
                a != who ==> #[trigger] final(self).spec_schedules_of(a) == old(
                    self,
                ).spec_schedules_of(a),
    {
        let ghost s0 = self.spec_entries();
        match self.find(who) {
            Some(i) => {
                let e = (who, ss);
                self.entries[i] = e;
                proof {
                    lemma_unique_update(s0, i as int, e);
                    lemma_lookup_update(s0, i as int, e, who);
                    assert forall|a: AccountId|
                        a != who implies #[trigger] self.spec_schedules_of(a) == old(
                        self,
                    ).spec_schedules_of(a) by {
                        lemma_lookup_update(s0, i as int, e, a);
                    }
                    assert forall|j: int|
                        0 <= j < self.spec_entries().len() implies (
                    #[trigger] self.spec_entries()[j]).1@.len() <= self.spec_max_vesting_schedules()
                        && all_periods_positive(self.spec_entries()[j].1@) by {
                        if j != i as int {
                            assert(self.spec_entries()[j] == s0[j]);
                        }
                    }
                }
            },
            None => {
                let e = (who, ss);
                proof {
                    lemma_lookup_has(s0, who);
                }
                self.entries.push(e);
                proof {
                    lemma_unique_push(s0, e);
                    lemma_lookup_push(s0, e, who);
                    assert forall|a: AccountId|
                        a != who implies #[trigger] self.spec_schedules_of(a) == old(
                        self,
                    ).spec_schedules_of(a) by {
                        lemma_lookup_push(s0, e, a);
                    }
                    assert forall|j: int|
                        0 <= j < self.spec_entries().len() implies (
                    #[trigger] self.spec_entries()[j]).1@.len() <= self.spec_max_vesting_schedules()
                        && all_periods_positive(self.spec_entries()[j].1@) by {
                        if j < s0.len() {
                            assert(self.spec_entries()[j] == s0[j]);
                        }
                    }
                }
            },
        }
    }

    /// The exact result of `vested_transfer`, decided against the pre-state.
    pub open spec fn vested_transfer_outcome(
        self,
        led: Ledger,
        origin: Origin,
        now: BlockNumber,
        dest: AccountId,
        s: VestingSchedule,
    ) -> Result<(), Error> {
        match origin.spec_signer() {
            None => Err(Error::BadOrigin),
            Some(sender) => if s.period == 0 {
                Err(Error::ZeroVestingPeriod)
            } else if s.period_count == 0 {
                Err(Error::ZeroVestingPeriodCount)
            } else if now >= s.start {
                Err(Error::InvalidVestingStart)
            } else if spec_total_amount(s) > u64::MAX as int {
                Err(Error::ArithmeticOverflow)
            } else if spec_total_amount(s) < self.spec_min_vested_transfer() as int {
                Err(Error::AmountLow)
            } else if (led.spec_free(sender) as int) < spec_total_amount(s) {
                Err(Error::InsufficientBalanceToLock)
            } else if self.spec_schedules_of(dest).len()
                >= self.spec_max_vesting_schedules() as nat {
                Err(Error::TooManyVestingSchedules)
            } else if locked_sum(self.spec_schedules_of(dest).push(s), now) > u64::MAX as int {
                Err(Error::ArithmeticOverflow)
            } else if sender != dest && led.spec_free(dest) as int + spec_total_amount(s)
                > u64::MAX as int {
                Err(Error::ArithmeticOverflow)
            } else {
                Ok(())
            },
        }
    }

    /// Transfer `total_amount` of `schedule` from the caller to `dest`,
    /// append the schedule to `dest`'s collection, and republish `dest`'s
    /// lock from the new collection.
    pub fn vested_transfer(&mut self, ledger: &mut Ledger, origin: Origin, now: BlockNumber,
        dest: AccountId, schedule: VestingSchedule) -> (r: Result<(), Error>)
        requires
            old(self).wf(),
            old(ledger).wf(),
        ensures
            final(self).wf(),
            final(ledger).wf(),
            r == old(self).vested_transfer_outcome(*old(ledger), origin, now, dest, schedule),
            r is Err ==> *final(self) == *old(self) && *final(ledger) == *old(ledger),
            final(self).spec_max_vesting_schedules() == old(self).spec_max_vesting_schedules(),
            final(self).spec_min_vested_transfer() == old(self).spec_min_vested_transfer(),
            r is Ok ==> ({
                let sender = origin.spec_signer().unwrap();
                let total = spec_total_amount(schedule);
                let new_schedules = old(self).spec_schedules_of(dest).push(schedule);
                let new_locked = locked_sum(new_schedules, now);
                &&& final(self).spec_schedules_of(dest) == new_schedules
                &&& forall|a: AccountId|
                    a != dest ==> #[trigger] final(self).spec_schedules_of(a) == old(
                        self,
                    ).spec_schedules_of(a)
                &&& final(ledger).spec_lock(dest) == (if new_locked == 0 {
                    None::<u64>
                } else {
                    Some(new_locked as u64)
                })
                &&& forall|a: AccountId|
                    a != dest ==> #[trigger] final(ledger).spec_lock(a) == old(ledger).spec_lock(a)
                &&& (sender == dest ==> forall|a: AccountId| #[trigger]
                    final(ledger).spec_free(a) == old(ledger).spec_free(a))
                &&& (sender != dest ==> final(ledger).spec_free(sender) == old(ledger).spec_free(
                    sender,
                ) - total)
                &&& (sender != dest ==> final(ledger).spec_free(dest) == old(ledger).spec_free(
                    dest,
                ) + total)
                &&& (sender != dest ==> forall|a: AccountId|
                    a != sender && a != dest ==> #[trigger] final(ledger).spec_free(a) == old(
                        ledger,
                    ).spec_free(a))
            }),
    {
        let sender = match origin {
            Origin::Signed(w) => w,
            Origin::Root => {
                return Err(Error::BadOrigin);
            },
        };
        if schedule.period == 0 {
            return Err(Error::ZeroVestingPeriod);
        }
        if schedule.period_count == 0 {
            return Err(Error::ZeroVestingPeriodCount);
        }
        if now >= schedule.start {
            return Err(Error::InvalidVestingStart);
        }
        let total = match schedule.total_amount() {
            Some(t) => t,
            None => {
                return Err(Error::ArithmeticOverflow);
            },
        };
        if total < self.config.min_vested_transfer {
            return Err(Error::AmountLow);
        }
        if ledger.free_balance(sender) < total {
            return Err(Error::InsufficientBalanceToLock);
        }
        proof {
            self.lemma_schedules_of_wf(dest);
        }
        let mut ss = self.vesting_schedules(dest);
        if ss.len() >= self.config.max_vesting_schedules as usize {
            return Err(Error::TooManyVestingSchedules);
        }
        ss.push(schedule);
        proof {
            assert forall|i: int| 0 <= i < ss@.len() implies (#[trigger] ss@[i]).period > 0 by {
                if i < ss@.len() - 1 {
                    assert(ss@[i] == old(self).spec_schedules_of(dest)[i]);
                }
            }
        }
        let new_locked = match locked_total(&ss, now) {
            Ok(t) => t,
            Err(e) => {
                return Err(e);
            },
        };
        if sender != dest && ledger.free_balance(dest) > u64::MAX - total {
            return Err(Error::ArithmeticOverflow);
        }
        let tr = ledger.transfer(sender, dest, total);
        proof {
            assert(tr is Ok);
        }
        self.put_schedules(dest, ss);
        if new_locked == 0 {
            ledger.remove_lock(dest);
        } else {
            ledger.set_lock(dest, new_locked);
        }
        Ok(())
    }

    /// The exact result of `claim`, decided against the pre-state.
    pub open spec fn claim_outcome(self, origin: Origin, now: BlockNumber) -> Result<(), Error> {
        match origin.spec_signer() {
            None => Err(Error::BadOrigin),
            Some(who) => if locked_sum(self.spec_schedules_of(who), now) > u64::MAX as int {
                Err(Error::ArithmeticOverflow)
            } else {
                Ok(())
            },
        }
    }

    /// Recompute the caller's locked total at block `now` and republish the
    /// lock; the lock is removed outright when nothing remains locked. No
    /// tokens move: vested tokens were already credited at transfer time.
    pub fn claim(&self, ledger: &mut Ledger, origin: Origin, now: BlockNumber) -> (r: Result<
        (),
        Error,
    >)
        requires
            self.wf(),
            old(ledger).wf(),
        ensures
            final(ledger).wf(),
            r == self.claim_outcome(origin, now),
            r is Err ==> *final(ledger) == *old(ledger),
            forall|a: AccountId| #[trigger] final(ledger).spec_free(a) == old(ledger).spec_free(a),
            r is Ok ==> ({
                let who = origin.spec_signer().unwrap();
                let locked = locked_sum(self.spec_schedules_of(who), now);
                &&& final(ledger).spec_lock(who) == (if locked == 0 {
                    None::<u64>
                } else {
                    Some(locked as u64)
                })
                &&& forall|a: AccountId|
                    a != who ==> #[trigger] final(ledger).spec_lock(a) == old(ledger).spec_lock(a)
            }),
    {
        let who = match origin {
            Origin::Signed(w) => w,
            Origin::Root => {
                return Err(Error::BadOrigin);
            },
        };
        proof {
            self.lemma_schedules_of_wf(who);
        }
        let ss = self.vesting_schedules(who);
        let locked = match locked_total(&ss, now) {
            Ok(t) => t,
            Err(e) => {
                return Err(e);
            },
        };
        if locked == 0 {
            ledger.remove_lock(who);
        } else {
            ledger.set_lock(who, locked);
        }
        Ok(())
    }

    /// The exact result of `update_vesting_schedules`, decided against the
    /// pre-state.
    pub open spec fn update_vesting_schedules_outcome(
        self,
        led: Ledger,
        origin: Origin,
        now: BlockNumber,
        who: AccountId,
        schedules: Seq<VestingSchedule>,
    ) -> Result<(), Error> {
        if origin != Origin::Root {
            Err(Error::BadOrigin)
        } else if schedules.len() > self.spec_max_vesting_schedules() as nat {
            Err(Error::TooManyVestingSchedules)
        } else if locked_sum(schedules, now) > u64::MAX as int {
            Err(Error::ArithmeticOverflow)
        } else if (led.spec_free(who) as int) < locked_sum(schedules, now) {
            Err(Error::InsufficientBalanceToLock)
        } else {
            Ok(())
        }
    }

    /// Replace `who`'s entire schedule collection (root only), after
    /// checking capacity and that `who`'s free balance covers the new
    /// locked total, then republish the lock. Every schedule handed in must
    /// have a positive period: the locked amount of a zero-period schedule
    /// is not defined.
    pub fn update_vesting_schedules(&mut self, ledger: &mut Ledger, origin: Origin,
        now: BlockNumber, who: AccountId, schedules: Vec<VestingSchedule>) -> (r: Result<
        (),
        Error,
    >)
        requires
            old(self).wf(),
            old(ledger).wf(),
            all_periods_positive(schedules@),
        ensures
            final(self).wf(),
            final(ledger).wf(),
            r == old(self).update_vesting_schedules_outcome(
                *old(ledger),
                origin,
                now,
                who,
                schedules@,
            ),
            r is Err ==> *final(self) == *old(self) && *final(ledger) == *old(ledger),
            final(self).spec_max_vesting_schedules() == old(self).spec_max_vesting_schedules(),
            final(self).spec_min_vested_transfer() == old(self).spec_min_vested_transfer(),
            forall|a: AccountId| #[trigger] final(ledger).spec_free(a) == old(ledger).spec_free(a),
            r is Ok ==> ({
                let locked = locked_sum(schedules@, now);
                &&& final(self).spec_schedules_of(who) == schedules@
                &&& forall|a: AccountId|
                    a != who ==> #[trigger] final(self).spec_schedules_of(a) == old(
                        self,
                    ).spec_schedules_of(a)
                &&& final(ledger).spec_lock(who) == (if locked == 0 {
                    None::<u64>
                } else {
                    Some(locked as u64)
                })
                &&& forall|a: AccountId|
                    a != who ==> #[trigger] final(ledger).spec_lock(a) == old(ledger).spec_lock(a)
            }),
    {
        match origin {
            Origin::Root => {},
            Origin::Signed(_) => {
                return Err(Error::BadOrigin);
            },
        }
        if schedules.len() > self.config.max_vesting_schedules as usize {
            return Err(Error::TooManyVestingSchedules);
        }
        let total_locked = match locked_total(&schedules, now) {
            Ok(t) => t,
            Err(e) => {
                return Err(e);
            },
        };
        if ledger.free_balance(who) < total_locked {
            return Err(Error::InsufficientBalanceToLock);
        }
        self.put_schedules(who, schedules);
        if total_locked == 0 {
            ledger.remove_lock(who);
        } else {
            ledger.set_lock(who, total_locked);
        }
        Ok(())
    }

    /// The exact result of `update_vesting_schedule`, decided against the
    /// pre-state.
    pub open spec fn update_vesting_schedule_outcome(
        self,
        origin: Origin,
        now: BlockNumber,
        who: AccountId,
        index: u32,
        s: VestingSchedule,
    ) -> Result<(), Error> {
        if origin != Origin::Root {
            Err(Error::BadOrigin)
        } else if s.period == 0 {
            Err(Error::ZeroVestingPeriod)
        } else if s.period_count == 0 {
            Err(Error::ZeroVestingPeriodCount)
        } else if s.per_period == 0 {
            Err(Error::ZeroPerPeriodVested)
        } else if index as nat >= self.spec_schedules_of(who).len() {
            Err(Error::InvalidVestingIndex)
        } else if locked_sum(self.spec_schedules_of(who).update(index as int, s), now)
            > u64::MAX as int {
            Err(Error::ArithmeticOverflow)
        } else {
            Ok(())
        }
    }

    /// Replace the schedule at `index` in `who`'s collection (root only)
    /// after validating the replacement, then republish the lock.
    pub fn update_vesting_schedule(&mut self, ledger: &mut Ledger, origin: Origin,
        now: BlockNumber, who: AccountId, index: u32, schedule: VestingSchedule) -> (r: Result<
        (),
        Error,
    >)
        requires
            old(self).wf(),
            old(ledger).wf(),
        ensures
            final(self).wf(),
            final(ledger).wf(),
            r == old(self).update_vesting_schedule_outcome(origin, now, who, index, schedule),
            r is Err ==> *final(self) == *old(self) && *final(ledger) == *old(ledger),
            final(self).spec_max_vesting_schedules() == old(self).spec_max_vesting_schedules(),
            final(self).spec_min_vested_transfer() == old(self).spec_min_vested_transfer(),
            forall|a: AccountId| #[trigger] final(ledger).spec_free(a) == old(ledger).spec_free(a),
            r is Ok ==> ({
                let new_schedules = old(self).spec_schedules_of(who).update(index as int,
                    schedule);
                let locked = locked_sum(new_schedules, now);
                &&& final(self).spec_schedules_of(who) == new_schedules
                &&& forall|a: AccountId|
                    a != who ==> #[trigger] final(self).spec_schedules_of(a) == old(
                        self,
                    ).spec_schedules_of(a)
                &&& final(ledger).spec_lock(who) == (if locked == 0 {
                    None::<u64>
                } else {
                    Some(locked as u64)
                })
                &&& forall|a: AccountId|
                    a != who ==> #[trigger] final(ledger).spec_lock(a) == old(ledger).spec_lock(a)
            }),
    {
        match origin {
            Origin::Root => {},
            Origin::Signed(_) => {
                return Err(Error::BadOrigin);
            },
        }
        if schedule.period == 0 {
            return Err(Error::ZeroVestingPeriod);
        }
        if schedule.period_count == 0 {
            return Err(Error::ZeroVestingPeriodCount);
        }
        if schedule.per_period == 0 {
            return Err(Error::ZeroPerPeriodVested);
        }
        proof {
            self.lemma_schedules_of_wf(who);
        }
        let mut ss = self.vesting_schedules(who);
        if index as usize >= ss.len() {
            return Err(Error::InvalidVestingIndex);
        }
        ss[index as usize] = schedule;
        proof {
            assert forall|i: int| 0 <= i < ss@.len() implies (#[trigger] ss@[i]).period > 0 by {
                if i != index as int {
                    assert(ss@[i] == old(self).spec_schedules_of(who)[i]);
                }
            }
        }
        let total_locked = match locked_total(&ss, now) {
            Ok(t) => t,
            Err(e) => {
                return Err(e);
            },
        };
        self.put_schedules(who, ss);
        if total_locked == 0 {
            ledger.remove_lock(who);
        } else {
            ledger.set_lock(who, total_locked);
        }
        Ok(())
    }

    /// The exact result of `force_remove_vesting_schedule`, decided against
    /// the pre-state.
    pub open spec fn force_remove_vesting_schedule_outcome(
        self,
        origin: Origin,
        now: BlockNumber,
        who: AccountId,
        schedule_index: u32,
    ) -> Result<(), Error> {
        if origin != Origin::Root {
            Err(Error::BadOrigin)
        } else if schedule_index as nat >= self.spec_schedules_of(who).len() {
            Err(Error::InvalidVestingIndex)
        } else if self.spec_schedules_of(who).len() > 1 && locked_sum(
            self.spec_schedules_of(who).remove(schedule_index as int),
            now,
        ) > u64::MAX as int {
            Err(Error::ArithmeticOverflow)
        } else {
            Ok(())
        }
    }

    /// Remove the schedule at `schedule_index` from `who`'s collection
    /// (root only); the lock is republished from the remaining schedules,
    /// and removed outright when none remain or nothing stays locked.
    pub fn force_remove_vesting_schedule(&mut self, ledger: &mut Ledger, origin: Origin,
        now: BlockNumber, who: AccountId, schedule_index: u32) -> (r: Result<(), Error>)
        requires
            old(self).wf(),
            old(ledger).wf(),
        ensures
            final(self).wf(),
            final(ledger).wf(),
            r == old(self).force_remove_vesting_schedule_outcome(origin, now, who, schedule_index),
            r is Err ==> *final(self) == *old(self) && *final(ledger) == *old(ledger),
            final(self).spec_max_vesting_schedules() == old(self).spec_max_vesting_schedules(),
            final(self).spec_min_vested_transfer() == old(self).spec_min_vested_transfer(),
            forall|a: AccountId| #[trigger] final(ledger).spec_free(a) == old(ledger).spec_free(a),
            r is Ok ==> ({
                let new_schedules = old(self).spec_schedules_of(who).remove(schedule_index as int);
                let locked = locked_sum(new_schedules, now);
                &&& final(self).spec_schedules_of(who) == new_schedules
                &&& forall|a: AccountId|
                    a != who ==> #[trigger] final(self).spec_schedules_of(a) == old(
                        self,
                    ).spec_schedules_of(a)
                &&& final(ledger).spec_lock(who) == (if locked == 0 {
                    None::<u64>
                } else {
                    Some(locked as u64)
                })
                &&& forall|a: AccountId|
                    a != who ==> #[trigger] final(ledger).spec_lock(a) == old(ledger).spec_lock(a)
            }),
    {
        match origin {
            Origin::Root => {},
            Origin::Signed(_) => {
                return Err(Error::BadOrigin);
            },
        }
        proof {
            self.lemma_schedules_of_wf(who);
        }
        let mut ss = self.vesting_schedules(who);
        if schedule_index as usize >= ss.len() {
            return Err(Error::InvalidVestingIndex);
        }
        ss.remove(schedule_index as usize);
        proof {
            assert forall|i: int| 0 <= i < ss@.len() implies (#[trigger] ss@[i]).period > 0 by {
                let i0: int = if i < schedule_index as int {
                    i
                } else {
                    i + 1
                };
                assert(ss@[i] == old(self).spec_schedules_of(who)[i0]);
            }
        }
        if ss.len() == 0 {
            proof {
                assert(locked_sum(ss@, now) == 0);
            }
            self.put_schedules(who, ss);
            ledger.remove_lock(who);
            return Ok(());
        }
        let total_locked = match locked_total(&ss, now) {
            Ok(t) => t,
            Err(e) => {
                return Err(e);
            },
        };
        self.put_schedules(who, ss);
        if total_locked == 0 {
            ledger.remove_lock(who);
        } else {
            ledger.set_lock(who, total_locked);
        }
        Ok(())
    }

    /// Sum of the vested amounts of `who`'s schedules at block `now`. The
    /// sum is informational, so it saturates at the balance type's maximum
    /// when it overflows across schedules; the lock computation, by
    /// contrast, is checked and surfaces an error.
    pub fn vested_balance(&self, who: AccountId, now: BlockNumber) -> (r: Balance)
        requires
            self.wf(),
        ensures
            r as int == (if vested_sum(self.spec_schedules_of(who), now) <= u64::MAX as int {
                vested_sum(self.spec_schedules_of(who), now)
            } else {
                u64::MAX as int
            }),
    {
        proof {
            self.lemma_schedules_of_wf(who);
        }
        let ss = self.vesting_schedules(who);
        vested_total_saturating(&ss, now)
    }

    /// Sum of the locked amounts of `who`'s schedules at block `now`. The
    /// sum is informational, so it saturates at the balance type's maximum
    /// when it overflows across schedules; the lock computation, by
    /// contrast, is checked and surfaces an error.
    pub fn locked_balance(&self, who: AccountId, now: BlockNumber) -> (r: Balance)
        requires
            self.wf(),
        ensures
            r as int == (if locked_sum(self.spec_schedules_of(who), now) <= u64::MAX as int {
                locked_sum(self.spec_schedules_of(who), now)
            } else {
                u64::MAX as int
            }),
    {
        proof {
            self.lemma_schedules_of_wf(who);
        }
        let ss = self.vesting_schedules(who);
        locked_total_saturating(&ss, now)
    }
}

/// Test account endowed at genesis.
pub const ALICE: AccountId = 1;

/// Test account, not endowed.
pub const BOB: AccountId = 2;

/// Builds the well-known genesis state for exercising the vesting
/// accountant.
pub struct ExtBuilder;

/// A fresh vesting accountant (at most ten schedules per account, minimum
/// vested transfer of ten) over a ledger endowing only the first test
/// account.
pub fn new_test_ext() -> (r: (Pallet, Ledger))
    ensures
        r.0.wf(),
        r.1.wf(),
        r.0.spec_max_vesting_schedules() == 10,
        r.0.spec_min_vested_transfer() == 10,
        forall|a: AccountId| (#[trigger] r.0.spec_schedules_of(a)).len() == 0,
        r.1.spec_free(ALICE) == 100,
        forall|a: AccountId| a != ALICE ==> #[trigger] r.1.spec_free(a) == 0,
        forall|a: AccountId| #[trigger] r.1.spec_lock(a) is None,
{
    let pallet = Pallet::new(Config { max_vesting_schedules: 10, min_vested_transfer: 10 });
    let mut ledger = Ledger::new();
    ledger.set_balance(ALICE, 100);
    (pallet, ledger)
}

impl ExtBuilder {
    /// The genesis state used by the vesting tests.
    pub fn build() -> (r: (Pallet, Ledger))
        ensures
            r.0.wf(),
            r.1.wf(),
            r.0.spec_max_vesting_schedules() == 10,
            r.0.spec_min_vested_transfer() == 10,
            forall|a: AccountId| (#[trigger] r.0.spec_schedules_of(a)).len() == 0,
            r.1.spec_free(ALICE) == 100,
            forall|a: AccountId| a != ALICE ==> #[trigger] r.1.spec_free(a) == 0,
            forall|a: AccountId| #[trigger] r.1.spec_lock(a) is None,
    {
        new_test_ext()
    }
}

impl VestingSchedule {
    /// The total amount this schedule will ever unlock, or `None` when
    /// `per_period * period_count` overflows the balance type.
    pub fn total_amount(&self) -> (r: Option<Balance>)
        ensures
            match r {
                Some(t) => t as int == spec_total_amount(*self),
                None => spec_total_amount(*self) > u64::MAX as int,
            },
    {
        checked_mul(self.per_period, self.period_count as u64)
    }

    /// The amount unlocked at block `now`. Defined only for schedules with
    /// a positive period, as every stored schedule has.
    pub fn vested_amount(&self, now: BlockNumber) -> (r: Balance)
        requires
            self.period > 0,
        ensures
            r as int == spec_vested(*self, now),
    {
        if now < self.start {
            return 0;
        }
        let elapsed_blocks = now - self.start;
        let elapsed_periods = elapsed_blocks / self.period;
        let count = self.period_count as u64;
        let capped = if elapsed_periods < count {
            elapsed_periods
        } else {
            count
        };
        sat_mul(capped, self.per_period)
    }

    /// The amount still locked at block `now`. Defined only for schedules
    /// with a positive period, as every stored schedule has.
    pub fn locked_amount(&self, now: BlockNumber) -> (r: Balance)
        requires
            self.period > 0,
        ensures
            r as int == spec_locked(*self, now),
    {
        let total = match self.total_amount() {
            Some(t) => t,
            None => 0,
        };
        sat_sub(total, self.vested_amount(now))
    }

    /// Whether the schedule's start lies strictly in the future of
    /// `current_block`, as a fresh vested transfer demands.
    pub fn is_valid_start_block(&self, current_block: BlockNumber) -> (r: bool)
        ensures
            r == (current_block < self.start),
    {
        current_block < self.start
    }
}

} // verus!
