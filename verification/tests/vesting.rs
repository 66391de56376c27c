use pool_vesting::Origin;
use pool_vesting::vesting::{ALICE, BOB, Error, ExtBuilder, VestingSchedule};

#[test]
fn vested_transfer_works() {
    let (mut vesting, mut ledger) = ExtBuilder::build();
    assert_eq!(ledger.free_balance(ALICE), 100);
    assert_eq!(ledger.free_balance(BOB), 0);

    let schedule = VestingSchedule { start: 100, period: 10, period_count: 5, per_period: 10 };

    // Total amount should be 5 (period_count) * 10 (per_period) = 50
    assert_eq!(schedule.total_amount(), Some(50));

    assert!(vesting.vested_transfer(&mut ledger, Origin::Signed(ALICE), 0, BOB, schedule).is_ok());

    // ALICE has 50 after transfer
    assert_eq!(ledger.free_balance(ALICE), 50);
    // BOB has 50 free balance but it's considered frozen/locked
    assert_eq!(ledger.free_balance(BOB), 50);

    let schedules = vesting.vesting_schedules(BOB);
    assert_eq!(schedules.len(), 1);
    assert_eq!(schedules[0].start, 100);
    assert_eq!(schedules[0].period, 10);
    assert_eq!(schedules[0].period_count, 5);
    assert_eq!(schedules[0].per_period, 10);

    // All of BOB's tokens are still locked
    assert_eq!(vesting.locked_balance(BOB, 0), 50);
    assert_eq!(vesting.vested_balance(BOB, 0), 0);
}

#[test]
fn vested_transfer_fails_if_zero_period_or_count() {
    let (mut vesting, mut ledger) = ExtBuilder::build();
    let schedule_1 = VestingSchedule { start: 100, period: 0, period_count: 10, per_period: 10 };

    assert_eq!(
        vesting.vested_transfer(&mut ledger, Origin::Signed(ALICE), 0, BOB, schedule_1),
        Err(Error::ZeroVestingPeriod)
    );

    let schedule_2 = VestingSchedule { start: 100, period: 10, period_count: 0, per_period: 10 };

    assert_eq!(
        vesting.vested_transfer(&mut ledger, Origin::Signed(ALICE), 0, BOB, schedule_2),
        Err(Error::ZeroVestingPeriodCount)
    );
}

#[test]
fn claim_works() {
    let (mut vesting, mut ledger) = ExtBuilder::build();
    let schedule = VestingSchedule { start: 100, period: 10, period_count: 5, per_period: 10 };

    assert!(vesting.vested_transfer(&mut ledger, Origin::Signed(ALICE), 0, BOB, schedule).is_ok());

    // Validation before claim, locked balance is 50
    assert_eq!(vesting.locked_balance(BOB, 0), 50);
    assert_eq!(vesting.vested_balance(BOB, 0), 0);
    assert_eq!(ledger.free_balance(BOB), 50);

    let schedules = vesting.vesting_schedules(BOB);
    assert_eq!(schedules.len(), 1);

    // Move past the end of the vesting schedule, then claim
    assert!(vesting.claim(&mut ledger, Origin::Signed(BOB), 150).is_ok());

    // After claim, the locked balance has moved to the vested balance
    assert_eq!(vesting.locked_balance(BOB, 150), 0);
    assert_eq!(vesting.vested_balance(BOB, 150), 50);
}

#[test]
fn update_vesting_schedules_works() {
    let (mut vesting, mut ledger) = ExtBuilder::build();
    let schedule = VestingSchedule { start: 100, period: 10, period_count: 5, per_period: 10 };

    assert!(vesting.vested_transfer(&mut ledger, Origin::Signed(ALICE), 0, BOB, schedule).is_ok());

    let schedules = vesting.vesting_schedules(BOB);
    assert_eq!(schedules.len(), 1);
    assert_eq!(schedules[0].start, schedule.start);
    assert_eq!(schedules[0].period, schedule.period);
    assert_eq!(schedules[0].period_count, schedule.period_count);
    assert_eq!(schedules[0].per_period, schedule.per_period);

    assert_eq!(vesting.locked_balance(BOB, 0), 50);
    assert_eq!(vesting.vested_balance(BOB, 0), 0);
    assert_eq!(ledger.free_balance(BOB), 50);

    // Replace with a schedule keeping the same total amount (50)
    let new_schedule = VestingSchedule { start: 50, period: 2, period_count: 2, per_period: 25 };

    assert_eq!(ledger.free_balance(BOB), 50);

    assert!(
        vesting
            .update_vesting_schedules(&mut ledger, Origin::Root, 0, BOB, vec![new_schedule])
            .is_ok()
    );

    let schedules = vesting.vesting_schedules(BOB);
    assert_eq!(schedules.len(), 1);
    assert_eq!(schedules[0].start, new_schedule.start);
    assert_eq!(schedules[0].period, new_schedule.period);
    assert_eq!(schedules[0].period_count, new_schedule.period_count);
    assert_eq!(schedules[0].per_period, new_schedule.per_period);
}

#[test]
fn multiple_vesting_schedule_claim_works() {
    let (mut vesting, mut ledger) = ExtBuilder::build();
    let schedule = VestingSchedule { start: 100, period: 4, period_count: 5, per_period: 4 };

    assert!(vesting.vested_transfer(&mut ledger, Origin::Signed(ALICE), 0, BOB, schedule).is_ok());

    let schedule_2 = VestingSchedule { start: 100, period: 2, period_count: 10, per_period: 2 };

    assert!(
        vesting.vested_transfer(&mut ledger, Origin::Signed(ALICE), 0, BOB, schedule_2).is_ok()
    );

    // Validation before claim
    assert_eq!(vesting.locked_balance(BOB, 0), 40);
    assert_eq!(vesting.vested_balance(BOB, 0), 0);
    assert_eq!(ledger.free_balance(BOB), 40);

    let schedules = vesting.vesting_schedules(BOB);
    assert_eq!(schedules.len(), 2);
    assert_eq!(schedules[0].start, schedule.start);
    assert_eq!(schedules[0].period, schedule.period);
    assert_eq!(schedules[0].period_count, schedule.period_count);
    assert_eq!(schedules[0].per_period, schedule.per_period);
    assert_eq!(schedules[1].start, schedule_2.start);
    assert_eq!(schedules[1].period, schedule_2.period);
    assert_eq!(schedules[1].period_count, schedule_2.period_count);
    assert_eq!(schedules[1].per_period, schedule_2.per_period);

    // Move past the end of both schedules, then claim
    assert!(vesting.claim(&mut ledger, Origin::Signed(BOB), 120).is_ok());

    // Validation after claim
    assert_eq!(vesting.locked_balance(BOB, 120), 0);
    assert_eq!(vesting.vested_balance(BOB, 120), 40);
    assert_eq!(ledger.free_balance(BOB), 40);
}

#[test]
fn vesting_linearity() {
    let schedule =
        VestingSchedule { start: 100, period: 10, period_count: 5, per_period: 1000 };
    assert_eq!(schedule.total_amount(), Some(5000));

    assert_eq!(schedule.vested_amount(99), 0);
    assert_eq!(schedule.locked_amount(99), 5000);

    assert_eq!(schedule.vested_amount(120), 2000);
    assert_eq!(schedule.locked_amount(120), 3000);

    assert_eq!(schedule.vested_amount(150), 5000);
    assert_eq!(schedule.locked_amount(150), 0);

    assert_eq!(schedule.vested_amount(1000), 5000);
    assert_eq!(schedule.locked_amount(1000), 0);
}

#[test]
fn claim_is_idempotent_after_full_vesting() {
    let (mut vesting, mut ledger) = ExtBuilder::build();
    let schedule = VestingSchedule { start: 100, period: 10, period_count: 5, per_period: 10 };
    assert!(vesting.vested_transfer(&mut ledger, Origin::Signed(ALICE), 0, BOB, schedule).is_ok());
    assert!(ledger.lock_of(BOB).is_some());

    assert!(vesting.claim(&mut ledger, Origin::Signed(BOB), 150).is_ok());
    assert_eq!(vesting.locked_balance(BOB, 150), 0);
    assert!(ledger.lock_of(BOB).is_none());
    let alice_free = ledger.free_balance(ALICE);
    let bob_free = ledger.free_balance(BOB);

    // Claiming again moves no tokens and raises no error
    assert!(vesting.claim(&mut ledger, Origin::Signed(BOB), 150).is_ok());
    assert_eq!(vesting.locked_balance(BOB, 150), 0);
    assert!(ledger.lock_of(BOB).is_none());
    assert_eq!(ledger.free_balance(ALICE), alice_free);
    assert_eq!(ledger.free_balance(BOB), bob_free);
}

#[test]
fn capacity_boundary_rejects_schedule_beyond_maximum() {
    let (mut vesting, mut ledger) = ExtBuilder::build();
    let schedule = VestingSchedule { start: 100, period: 10, period_count: 1, per_period: 10 };

    // Self-transfers keep the sender's balance, so capacity is what limits
    for _ in 0..10 {
        assert!(
            vesting.vested_transfer(&mut ledger, Origin::Signed(ALICE), 0, ALICE, schedule).is_ok()
        );
    }
    assert_eq!(vesting.vesting_schedules(ALICE).len(), 10);

    assert_eq!(
        vesting.vested_transfer(&mut ledger, Origin::Signed(ALICE), 0, ALICE, schedule),
        Err(Error::TooManyVestingSchedules)
    );
    // The collection is unchanged
    assert_eq!(vesting.vesting_schedules(ALICE).len(), 10);
    assert_eq!(ledger.free_balance(ALICE), 100);
}

#[test]
fn vested_transfer_fails_if_start_not_in_future() {
    let (mut vesting, mut ledger) = ExtBuilder::build();
    let schedule = VestingSchedule { start: 100, period: 10, period_count: 5, per_period: 10 };
    assert_eq!(
        vesting.vested_transfer(&mut ledger, Origin::Signed(ALICE), 100, BOB, schedule),
        Err(Error::InvalidVestingStart)
    );
}

#[test]
fn vested_transfer_fails_if_amount_low() {
    let (mut vesting, mut ledger) = ExtBuilder::build();
    let schedule = VestingSchedule { start: 100, period: 10, period_count: 1, per_period: 5 };
    assert_eq!(
        vesting.vested_transfer(&mut ledger, Origin::Signed(ALICE), 0, BOB, schedule),
        Err(Error::AmountLow)
    );
}

#[test]
fn vested_transfer_fails_if_balance_too_low() {
    let (mut vesting, mut ledger) = ExtBuilder::build();
    let schedule = VestingSchedule { start: 100, period: 10, period_count: 2, per_period: 100 };
    assert_eq!(
        vesting.vested_transfer(&mut ledger, Origin::Signed(ALICE), 0, BOB, schedule),
        Err(Error::InsufficientBalanceToLock)
    );
}

#[test]
fn vested_transfer_fails_on_total_overflow() {
    let (mut vesting, mut ledger) = ExtBuilder::build();
    let schedule =
        VestingSchedule { start: 100, period: 10, period_count: 2, per_period: u64::MAX };
    assert_eq!(
        vesting.vested_transfer(&mut ledger, Origin::Signed(ALICE), 0, BOB, schedule),
        Err(Error::ArithmeticOverflow)
    );
}

#[test]
fn vesting_ops_fail_with_bad_origin() {
    let (mut vesting, mut ledger) = ExtBuilder::build();
    let schedule = VestingSchedule { start: 100, period: 10, period_count: 5, per_period: 10 };
    assert_eq!(
        vesting.vested_transfer(&mut ledger, Origin::Root, 0, BOB, schedule),
        Err(Error::BadOrigin)
    );
    assert_eq!(
        vesting.claim(&mut ledger, Origin::Root, 0),
        Err(Error::BadOrigin)
    );
    assert_eq!(
        vesting.update_vesting_schedules(&mut ledger, Origin::Signed(ALICE), 0, BOB, vec![]),
        Err(Error::BadOrigin)
    );
    assert_eq!(
        vesting.update_vesting_schedule(&mut ledger, Origin::Signed(ALICE), 0, BOB, 0, schedule),
        Err(Error::BadOrigin)
    );
    assert_eq!(
        vesting.force_remove_vesting_schedule(&mut ledger, Origin::Signed(ALICE), 0, BOB, 0),
        Err(Error::BadOrigin)
    );
}

#[test]
fn update_vesting_schedule_works() {
    let (mut vesting, mut ledger) = ExtBuilder::build();
    let schedule = VestingSchedule { start: 100, period: 10, period_count: 5, per_period: 10 };
    assert!(vesting.vested_transfer(&mut ledger, Origin::Signed(ALICE), 0, BOB, schedule).is_ok());

    let replacement =
        VestingSchedule { start: 200, period: 5, period_count: 2, per_period: 20 };
    assert!(
        vesting
            .update_vesting_schedule(&mut ledger, Origin::Root, 0, BOB, 0, replacement)
            .is_ok()
    );

    let schedules = vesting.vesting_schedules(BOB);
    assert_eq!(schedules.len(), 1);
    assert_eq!(schedules[0].start, 200);
    assert_eq!(schedules[0].period, 5);
    assert_eq!(vesting.locked_balance(BOB, 0), 40);
}

#[test]
fn update_vesting_schedule_rejects_invalid_input() {
    let (mut vesting, mut ledger) = ExtBuilder::build();
    let schedule = VestingSchedule { start: 100, period: 10, period_count: 5, per_period: 10 };
    assert!(vesting.vested_transfer(&mut ledger, Origin::Signed(ALICE), 0, BOB, schedule).is_ok());

    let zero_period = VestingSchedule { start: 100, period: 0, period_count: 5, per_period: 10 };
    assert_eq!(
        vesting.update_vesting_schedule(&mut ledger, Origin::Root, 0, BOB, 0, zero_period),
        Err(Error::ZeroVestingPeriod)
    );
    let zero_count = VestingSchedule { start: 100, period: 10, period_count: 0, per_period: 10 };
    assert_eq!(
        vesting.update_vesting_schedule(&mut ledger, Origin::Root, 0, BOB, 0, zero_count),
        Err(Error::ZeroVestingPeriodCount)
    );
    let zero_per = VestingSchedule { start: 100, period: 10, period_count: 5, per_period: 0 };
    assert_eq!(
        vesting.update_vesting_schedule(&mut ledger, Origin::Root, 0, BOB, 0, zero_per),
        Err(Error::ZeroPerPeriodVested)
    );
    assert_eq!(
        vesting.update_vesting_schedule(&mut ledger, Origin::Root, 0, BOB, 1, schedule),
        Err(Error::InvalidVestingIndex)
    );
}

#[test]
fn update_vesting_schedules_rejects_over_capacity_and_low_balance() {
    let (mut vesting, mut ledger) = ExtBuilder::build();
    let schedule = VestingSchedule { start: 100, period: 10, period_count: 1, per_period: 10 };

    let eleven = vec![schedule; 11];
    assert_eq!(
        vesting.update_vesting_schedules(&mut ledger, Origin::Root, 0, BOB, eleven),
        Err(Error::TooManyVestingSchedules)
    );

    // BOB holds nothing, so a schedule locking 10 cannot be installed
    assert_eq!(
        vesting.update_vesting_schedules(&mut ledger, Origin::Root, 0, BOB, vec![schedule]),
        Err(Error::InsufficientBalanceToLock)
    );
}

#[test]
fn force_remove_vesting_schedule_works() {
    let (mut vesting, mut ledger) = ExtBuilder::build();
    let schedule = VestingSchedule { start: 100, period: 4, period_count: 5, per_period: 4 };
    let schedule_2 = VestingSchedule { start: 100, period: 2, period_count: 10, per_period: 2 };
    assert!(vesting.vested_transfer(&mut ledger, Origin::Signed(ALICE), 0, BOB, schedule).is_ok());
    assert!(
        vesting.vested_transfer(&mut ledger, Origin::Signed(ALICE), 0, BOB, schedule_2).is_ok()
    );

    assert_eq!(
        vesting.force_remove_vesting_schedule(&mut ledger, Origin::Root, 0, BOB, 2),
        Err(Error::InvalidVestingIndex)
    );

    assert!(vesting.force_remove_vesting_schedule(&mut ledger, Origin::Root, 0, BOB, 0).is_ok());
    let schedules = vesting.vesting_schedules(BOB);
    assert_eq!(schedules.len(), 1);
    assert_eq!(schedules[0].period, 2);
    assert_eq!(vesting.locked_balance(BOB, 0), 20);
    assert!(ledger.lock_of(BOB).is_some());

    // Removing the last schedule removes the lock entirely
    assert!(vesting.force_remove_vesting_schedule(&mut ledger, Origin::Root, 0, BOB, 0).is_ok());
    assert_eq!(vesting.vesting_schedules(BOB).len(), 0);
    assert!(ledger.lock_of(BOB).is_none());
}

#[test]
fn balance_reads_saturate_on_overflow() {
    let (mut vesting, mut ledger) = ExtBuilder::build();
    // A schedule unlocking u64::MAX, fully vested by block 10
    let big = VestingSchedule { start: 0, period: 1, period_count: 1, per_period: u64::MAX };
    // At block 10 nothing of it is locked, so the balance check passes
    assert!(
        vesting
            .update_vesting_schedules(&mut ledger, Origin::Root, 10, BOB, vec![big, big])
            .is_ok()
    );
    assert_eq!(vesting.vesting_schedules(BOB).len(), 2);

    // The vested sum overflows across the two schedules and saturates
    assert_eq!(vesting.vested_balance(BOB, 10), u64::MAX);
    // Read at a block where both schedules are still locked: the locked
    // sum overflows too and saturates
    assert_eq!(vesting.locked_balance(BOB, 0), u64::MAX);

    // The lock computation stays checked, by contrast: installing the same
    // set at a block where it is still locked is rejected
    assert_eq!(
        vesting.update_vesting_schedules(&mut ledger, Origin::Root, 0, BOB, vec![big, big]),
        Err(Error::ArithmeticOverflow)
    );
    assert_eq!(vesting.vesting_schedules(BOB).len(), 2);
}
