use pool_vesting::Origin;
use pool_vesting::pool::{ALICE, BOB, CHARLIE, Error, ExtBuilder};

const ALICE_BALANCE: u64 = 10_000;

#[test]
fn deposit_works() {
    let (mut pool, mut ledger) = ExtBuilder::build();
    let deposit_amount = 500;
    assert!(pool.deposit(&mut ledger, Origin::Signed(ALICE), 1, deposit_amount).is_ok());

    assert_eq!(ledger.free_balance(ALICE), ALICE_BALANCE - deposit_amount);
    assert_eq!(ledger.free_balance(pool.account_id()), deposit_amount);
    assert_eq!(pool.total_deposited(), deposit_amount);

    let deposit_info = pool.deposits(ALICE).unwrap();
    assert_eq!(deposit_info.amount, deposit_amount);
    assert_eq!(deposit_info.reward_debt, 0);
}

#[test]
fn deposit_fails_with_insufficient_balance() {
    let (mut pool, mut ledger) = ExtBuilder::build();
    assert_eq!(
        pool.deposit(&mut ledger, Origin::Signed(ALICE), 1, ALICE_BALANCE + 1),
        Err(Error::InsufficientBalance)
    );
}

#[test]
fn deposit_fails_with_zero_amount() {
    let (mut pool, mut ledger) = ExtBuilder::build();
    assert_eq!(
        pool.deposit(&mut ledger, Origin::Signed(ALICE), 1, 0),
        Err(Error::ZeroAmount)
    );
}

#[test]
fn withdraw_works() {
    let (mut pool, mut ledger) = ExtBuilder::build();
    let deposit_amount = 500;
    assert!(pool.deposit(&mut ledger, Origin::Signed(ALICE), 1, deposit_amount).is_ok());

    let withdraw_amount = 300;
    assert!(pool.withdraw(&mut ledger, Origin::Signed(ALICE), 1, Some(withdraw_amount)).is_ok());

    assert_eq!(
        ledger.free_balance(ALICE),
        ALICE_BALANCE - deposit_amount + withdraw_amount
    );
    assert_eq!(
        ledger.free_balance(pool.account_id()),
        deposit_amount - withdraw_amount
    );
    assert_eq!(pool.total_deposited(), deposit_amount - withdraw_amount);

    let deposit_info = pool.deposits(ALICE).unwrap();
    assert_eq!(deposit_info.amount, deposit_amount - withdraw_amount);
}

#[test]
fn withdraw_all_works() {
    let (mut pool, mut ledger) = ExtBuilder::build();
    let deposit_amount = 500;
    assert!(pool.deposit(&mut ledger, Origin::Signed(ALICE), 1, deposit_amount).is_ok());

    assert!(pool.withdraw(&mut ledger, Origin::Signed(ALICE), 1, None).is_ok());

    assert_eq!(ledger.free_balance(ALICE), ALICE_BALANCE);
    assert_eq!(ledger.free_balance(pool.account_id()), 0);
    assert_eq!(pool.total_deposited(), 0);

    assert!(pool.deposits(ALICE).is_none());
}

#[test]
fn withdraw_fails_with_no_deposit() {
    let (mut pool, mut ledger) = ExtBuilder::build();
    assert_eq!(
        pool.withdraw(&mut ledger, Origin::Signed(ALICE), 1, Some(100)),
        Err(Error::NoDeposit)
    );
}

#[test]
fn withdraw_fails_with_insufficient_deposit() {
    let (mut pool, mut ledger) = ExtBuilder::build();
    let deposit_amount = 100;
    assert!(pool.deposit(&mut ledger, Origin::Signed(ALICE), 1, deposit_amount).is_ok());

    assert_eq!(
        pool.withdraw(&mut ledger, Origin::Signed(ALICE), 1, Some(deposit_amount + 1)),
        Err(Error::InsufficientPoolBalance)
    );
}

#[test]
fn deposit_rewards_works() {
    let (mut pool, mut ledger) = ExtBuilder::build();
    let deposit_amount = 500;
    assert!(pool.deposit(&mut ledger, Origin::Signed(ALICE), 1, deposit_amount).is_ok());

    let reward_amount = 1000;
    assert!(pool.deposit_rewards(&mut ledger, Origin::Signed(CHARLIE), 1, reward_amount).is_ok());

    assert_eq!(pool.total_rewards(), reward_amount);
    assert_eq!(pool.acc_reward_per_share(), 2_000_000_000_000); // 1000 * precision / 500
}

#[test]
fn deposit_rewards_fails_with_bad_origin() {
    let (mut pool, mut ledger) = ExtBuilder::build();
    assert_eq!(
        pool.deposit_rewards(&mut ledger, Origin::Root, 1, 1000),
        Err(Error::BadOrigin)
    );
}

#[test]
fn deposit_rewards_fails_with_zero_amount() {
    let (mut pool, mut ledger) = ExtBuilder::build();
    let deposit_amount = 500;
    assert!(pool.deposit(&mut ledger, Origin::Signed(ALICE), 1, deposit_amount).is_ok());

    assert_eq!(
        pool.deposit_rewards(&mut ledger, Origin::Signed(CHARLIE), 1, 0),
        Err(Error::ZeroAmount)
    );
}

#[test]
fn claim_rewards_works() {
    let (mut pool, mut ledger) = ExtBuilder::build();
    let deposit_amount = 500;
    assert!(pool.deposit(&mut ledger, Origin::Signed(ALICE), 1, deposit_amount).is_ok());

    let reward_amount = 1000;
    assert!(pool.deposit_rewards(&mut ledger, Origin::Signed(CHARLIE), 1, reward_amount).is_ok());

    assert!(pool.claim_rewards(&mut ledger, Origin::Signed(ALICE), 1).is_ok());

    assert_eq!(
        ledger.free_balance(ALICE),
        ALICE_BALANCE - deposit_amount + reward_amount
    );
    assert_eq!(ledger.free_balance(pool.account_id()), deposit_amount);
}

#[test]
fn claim_rewards_fails_with_no_deposit() {
    let (mut pool, mut ledger) = ExtBuilder::build();
    assert_eq!(
        pool.claim_rewards(&mut ledger, Origin::Signed(ALICE), 1),
        Err(Error::NoDeposit)
    );
}

#[test]
fn partial_withdraw_with_rewards_works() {
    let (mut pool, mut ledger) = ExtBuilder::build();
    let deposit_amount = 500;
    assert!(pool.deposit(&mut ledger, Origin::Signed(ALICE), 1, deposit_amount).is_ok());

    let reward_amount = 1000;
    assert!(pool.deposit_rewards(&mut ledger, Origin::Signed(CHARLIE), 1, reward_amount).is_ok());

    let withdraw_amount = 200;
    assert!(pool.withdraw(&mut ledger, Origin::Signed(ALICE), 1, Some(withdraw_amount)).is_ok());

    assert_eq!(
        ledger.free_balance(ALICE),
        ALICE_BALANCE - deposit_amount + withdraw_amount + reward_amount
    );
    assert_eq!(
        ledger.free_balance(pool.account_id()),
        deposit_amount - withdraw_amount
    );

    let deposit_info = pool.deposits(ALICE).unwrap();
    assert_eq!(deposit_info.amount, deposit_amount - withdraw_amount);
}

#[test]
fn withdraw_zero_amount_fails() {
    let (mut pool, mut ledger) = ExtBuilder::build();
    let deposit_amount = 500;
    assert!(pool.deposit(&mut ledger, Origin::Signed(ALICE), 1, deposit_amount).is_ok());

    assert_eq!(
        pool.withdraw(&mut ledger, Origin::Signed(ALICE), 1, Some(0)),
        Err(Error::ZeroAmount)
    );
}

#[test]
fn multiple_deposits_accumulate() {
    let (mut pool, mut ledger) = ExtBuilder::build();
    assert!(pool.deposit(&mut ledger, Origin::Signed(ALICE), 1, 500).is_ok());
    assert!(pool.deposit(&mut ledger, Origin::Signed(ALICE), 1, 300).is_ok());

    let deposit_info = pool.deposits(ALICE).unwrap();
    assert_eq!(deposit_info.amount, 800);
    assert_eq!(pool.total_deposited(), 800);
    assert_eq!(ledger.free_balance(ALICE), ALICE_BALANCE - 800);
}

#[test]
fn multiple_deposits_should_sum() {
    let (mut pool, mut ledger) = ExtBuilder::build();
    assert!(pool.deposit(&mut ledger, Origin::Signed(ALICE), 1, 500).is_ok());
    assert!(pool.deposit(&mut ledger, Origin::Signed(ALICE), 1, 300).is_ok());

    let deposit_info = pool.deposits(ALICE).unwrap();
    assert_eq!(deposit_info.amount, 800);
    assert_eq!(pool.total_deposited(), 800);
    assert_eq!(ledger.free_balance(ALICE), ALICE_BALANCE - 800);
}

#[test]
fn reward_distribution_multiple_users() {
    let (mut pool, mut ledger) = ExtBuilder::build();
    assert!(pool.deposit(&mut ledger, Origin::Signed(ALICE), 1, 1000).is_ok());
    assert!(pool.deposit(&mut ledger, Origin::Signed(BOB), 1, 1000).is_ok());

    assert!(pool.deposit_rewards(&mut ledger, Origin::Signed(CHARLIE), 1, 300).is_ok());

    let alice_pending = pool.calculate_pending_rewards(ALICE).unwrap();
    let bob_pending = pool.calculate_pending_rewards(BOB).unwrap();

    assert_eq!(alice_pending, 150); // 1/2 of 300
    assert_eq!(bob_pending, 150); // 1/2 of 300

    assert!(pool.claim_rewards(&mut ledger, Origin::Signed(ALICE), 1).is_ok());
    assert!(pool.claim_rewards(&mut ledger, Origin::Signed(BOB), 1).is_ok());

    assert_eq!(pool.calculate_pending_rewards(ALICE).unwrap(), 0);
    assert_eq!(pool.calculate_pending_rewards(BOB).unwrap(), 0);
}

#[test]
fn rewards_accumulate_over_time() {
    let (mut pool, mut ledger) = ExtBuilder::build();
    assert!(pool.deposit(&mut ledger, Origin::Signed(ALICE), 1, 1000).is_ok());

    assert!(pool.deposit_rewards(&mut ledger, Origin::Signed(CHARLIE), 1, 100).is_ok());
    assert!(pool.deposit_rewards(&mut ledger, Origin::Signed(CHARLIE), 1, 50).is_ok());

    let pending = pool.calculate_pending_rewards(ALICE).unwrap();
    assert_eq!(pending, 150);

    let balance_before = ledger.free_balance(ALICE);
    assert!(pool.claim_rewards(&mut ledger, Origin::Signed(ALICE), 1).is_ok());
    assert_eq!(ledger.free_balance(ALICE), balance_before + 150);
}

#[test]
fn rewards_accumulate_with_multiple_deposits() {
    let (mut pool, mut ledger) = ExtBuilder::build();
    assert!(pool.deposit(&mut ledger, Origin::Signed(ALICE), 1, 1000).is_ok());

    assert!(pool.deposit_rewards(&mut ledger, Origin::Signed(CHARLIE), 1, 100).is_ok());
    assert!(pool.deposit_rewards(&mut ledger, Origin::Signed(CHARLIE), 1, 50).is_ok());

    let pending = pool.calculate_pending_rewards(ALICE).unwrap();
    assert_eq!(pending, 150);

    let balance_before = ledger.free_balance(ALICE);
    assert!(pool.claim_rewards(&mut ledger, Origin::Signed(ALICE), 1).is_ok());
    assert_eq!(ledger.free_balance(ALICE), balance_before + 150);
}

#[test]
fn late_joiner_receives_proportional_rewards() {
    let (mut pool, mut ledger) = ExtBuilder::build();
    assert!(pool.deposit(&mut ledger, Origin::Signed(ALICE), 1, 1000).is_ok());

    assert!(pool.deposit_rewards(&mut ledger, Origin::Signed(CHARLIE), 1, 100).is_ok());

    assert!(pool.deposit(&mut ledger, Origin::Signed(BOB), 1, 1000).is_ok());

    assert!(pool.deposit_rewards(&mut ledger, Origin::Signed(CHARLIE), 1, 200).is_ok());

    let alice_pending = pool.calculate_pending_rewards(ALICE).unwrap();
    let bob_pending = pool.calculate_pending_rewards(BOB).unwrap();

    assert_eq!(alice_pending, 200); // 100 (first) + 100 (half of second)
    assert_eq!(bob_pending, 100); // Half of second reward only
}

#[test]
fn deposit_rewards_without_any_deposits_fails() {
    let (mut pool, mut ledger) = ExtBuilder::build();
    assert_eq!(
        pool.deposit_rewards(&mut ledger, Origin::Signed(CHARLIE), 1, 1000),
        Err(Error::ArithmeticOverflow)
    );
}

#[test]
fn claim_rewards_twice_fails_with_zero_amount() {
    let (mut pool, mut ledger) = ExtBuilder::build();
    assert!(pool.deposit(&mut ledger, Origin::Signed(ALICE), 1, 500).is_ok());
    assert!(pool.deposit_rewards(&mut ledger, Origin::Signed(CHARLIE), 1, 200).is_ok());

    assert!(pool.claim_rewards(&mut ledger, Origin::Signed(ALICE), 1).is_ok());

    assert_eq!(
        pool.claim_rewards(&mut ledger, Origin::Signed(ALICE), 1),
        Err(Error::ZeroAmount)
    );
}

#[test]
fn withdraw_full_using_amount_parameter_works() {
    let (mut pool, mut ledger) = ExtBuilder::build();
    assert!(pool.deposit(&mut ledger, Origin::Signed(ALICE), 1, 400).is_ok());

    assert!(pool.withdraw(&mut ledger, Origin::Signed(ALICE), 1, Some(400)).is_ok());

    assert!(pool.deposits(ALICE).is_none());
    assert_eq!(pool.total_deposited(), 0);
}

#[test]
fn partial_withdraw_then_claim_rewards_works() {
    let (mut pool, mut ledger) = ExtBuilder::build();
    assert!(pool.deposit(&mut ledger, Origin::Signed(ALICE), 1, 1000).is_ok());

    assert!(pool.deposit_rewards(&mut ledger, Origin::Signed(CHARLIE), 1, 300).is_ok());

    assert!(pool.withdraw(&mut ledger, Origin::Signed(ALICE), 1, Some(500)).is_ok());

    assert!(pool.deposit_rewards(&mut ledger, Origin::Signed(CHARLIE), 1, 200).is_ok());

    let pending = pool.calculate_pending_rewards(ALICE).unwrap();
    assert_eq!(pending, 200);

    assert!(pool.claim_rewards(&mut ledger, Origin::Signed(ALICE), 1).is_ok());

    assert_eq!(pool.calculate_pending_rewards(ALICE).unwrap(), 0);
}

#[test]
fn minimal_deposit_and_reward_precision_works() {
    let (mut pool, mut ledger) = ExtBuilder::build();
    assert!(pool.deposit(&mut ledger, Origin::Signed(ALICE), 1, 1).is_ok());

    assert!(pool.deposit_rewards(&mut ledger, Origin::Signed(CHARLIE), 1, 1).is_ok());

    let pending = pool.calculate_pending_rewards(ALICE).unwrap();
    assert_eq!(pending, 1);
}

#[test]
fn reward_debt_updates_after_claim_and_new_rewards() {
    let (mut pool, mut ledger) = ExtBuilder::build();
    assert!(pool.deposit(&mut ledger, Origin::Signed(ALICE), 1, 300).is_ok());
    assert!(pool.deposit_rewards(&mut ledger, Origin::Signed(CHARLIE), 1, 300).is_ok());

    assert!(pool.claim_rewards(&mut ledger, Origin::Signed(ALICE), 1).is_ok());
    assert_eq!(pool.calculate_pending_rewards(ALICE).unwrap(), 0);

    assert!(pool.deposit_rewards(&mut ledger, Origin::Signed(CHARLIE), 1, 150).is_ok());
    assert_eq!(pool.calculate_pending_rewards(ALICE).unwrap(), 150);
}

#[test]
fn proportional_split_with_unequal_stakes() {
    let (mut pool, mut ledger) = ExtBuilder::build();
    assert!(pool.deposit(&mut ledger, Origin::Signed(ALICE), 1, 1000).is_ok());
    assert!(pool.deposit(&mut ledger, Origin::Signed(BOB), 1, 2000).is_ok());

    assert!(pool.deposit_rewards(&mut ledger, Origin::Signed(CHARLIE), 1, 300).is_ok());

    assert_eq!(pool.calculate_pending_rewards(ALICE).unwrap(), 100);
    assert_eq!(pool.calculate_pending_rewards(BOB).unwrap(), 200);

    assert!(pool.claim_rewards(&mut ledger, Origin::Signed(ALICE), 1).is_ok());
    assert!(pool.claim_rewards(&mut ledger, Origin::Signed(BOB), 1).is_ok());

    assert_eq!(pool.calculate_pending_rewards(ALICE).unwrap(), 0);
    assert_eq!(pool.calculate_pending_rewards(BOB).unwrap(), 0);
}

#[test]
fn full_withdraw_pays_deposit_plus_pending() {
    let (mut pool, mut ledger) = ExtBuilder::build();
    assert!(pool.deposit(&mut ledger, Origin::Signed(ALICE), 1, 1000).is_ok());
    assert!(pool.deposit_rewards(&mut ledger, Origin::Signed(CHARLIE), 1, 100).is_ok());

    assert!(pool.withdraw(&mut ledger, Origin::Signed(ALICE), 1, None).is_ok());

    assert!(pool.deposits(ALICE).is_none());
    assert_eq!(pool.total_deposited(), 0);
    assert_eq!(ledger.free_balance(ALICE), ALICE_BALANCE + 100);
}

#[test]
fn deposit_fails_with_bad_origin() {
    let (mut pool, mut ledger) = ExtBuilder::build();
    assert_eq!(
        pool.deposit(&mut ledger, Origin::Root, 1, 100),
        Err(Error::BadOrigin)
    );
    assert_eq!(
        pool.withdraw(&mut ledger, Origin::Root, 1, None),
        Err(Error::BadOrigin)
    );
    assert_eq!(
        pool.claim_rewards(&mut ledger, Origin::Root, 1),
        Err(Error::BadOrigin)
    );
}

#[test]
fn accumulator_never_decreases() {
    let (mut pool, mut ledger) = ExtBuilder::build();
    assert!(pool.deposit(&mut ledger, Origin::Signed(ALICE), 1, 500).is_ok());
    let mut last = pool.acc_reward_per_share();
    assert!(pool.deposit_rewards(&mut ledger, Origin::Signed(CHARLIE), 2, 100).is_ok());
    assert!(pool.acc_reward_per_share() >= last);
    last = pool.acc_reward_per_share();
    assert!(pool.withdraw(&mut ledger, Origin::Signed(ALICE), 3, Some(100)).is_ok());
    assert!(pool.acc_reward_per_share() >= last);
    last = pool.acc_reward_per_share();
    assert!(pool.deposit_rewards(&mut ledger, Origin::Signed(CHARLIE), 4, 77).is_ok());
    assert!(pool.acc_reward_per_share() >= last);
}

#[test]
fn failed_deposit_changes_nothing() {
    let (mut pool, mut ledger) = ExtBuilder::build();
    assert!(pool.deposit(&mut ledger, Origin::Signed(ALICE), 1, 500).is_ok());
    let total_before = pool.total_deposited();
    let free_before = ledger.free_balance(ALICE);
    assert_eq!(
        pool.deposit(&mut ledger, Origin::Signed(ALICE), 2, ALICE_BALANCE),
        Err(Error::InsufficientBalance)
    );
    assert_eq!(pool.total_deposited(), total_before);
    assert_eq!(ledger.free_balance(ALICE), free_before);
    assert_eq!(pool.deposits(ALICE).unwrap().amount, 500);
}
