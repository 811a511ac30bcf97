use creator_event_manager::event::EventState;
use creator_event_manager::finalize::{
    authorize_finalize, check_finalize, plan_finalize, FinalizeError,
};
use creator_event_manager::payout::{Payee, Transfer};
use creator_event_manager::views::prize_pool;
use soroban_sdk::testutils::Address as _;
use soroban_sdk::{Address, Env, IntoVal, TryFromVal, Val, Vec};

fn winner(rank: u32, amount: i128) -> Transfer {
    Transfer { payee: Payee::Winner(rank), amount }
}

fn creator(amount: i128) -> Transfer {
    Transfer { payee: Payee::Creator, amount }
}

fn event(pool: i128, end_time: u64) -> EventState {
    EventState { is_finalized: false, end_time, prize_pool: pool }
}

fn addresses(env: &Env, n: usize) -> Vec<Address> {
    let mut v = Vec::new(env);
    for _ in 0..n {
        v.push_back(Address::generate(env));
    }
    v
}

#[test]
fn test_entry_fee_grows_prize_pool_before_finalize() {
    let env = Env::default();
    let seed_pool: i128 = 500;
    let entry_fee: i128 = 100;
    let end_time: u64 = 7_200;
    let state = event(seed_pool + 3 * entry_fee, end_time);
    assert_eq!(prize_pool(&Some(state)), Ok(seed_pool + 3 * entry_fee));

    let creator_addr = Address::generate(&env);
    assert_eq!(authorize_finalize(&state, &creator_addr, &creator_addr, end_time + 1), Ok(()));

    let winners = addresses(&env, 2);
    let dist = Vec::from_array(&env, [60u32, 40u32]);
    let plan = plan_finalize(&state, &winners, &dist).unwrap();

    let total_pool: i128 = 800;
    assert_eq!(plan.transfers, vec![winner(0, total_pool * 60 / 100), winner(1, total_pool * 40 / 100)]);
    assert_eq!(prize_pool(&Some(plan.event)), Ok(0i128));
    let total_distributed: i128 = plan.transfers.iter().map(|t| t.amount).sum();
    assert_eq!(total_distributed, total_pool);
}

#[test]
fn test_remainder_goes_to_creator() {
    let env = Env::default();
    let seed_pool: i128 = 100;
    let state = event(seed_pool, 3_600);
    let winners = addresses(&env, 1);
    let dist = Vec::from_array(&env, [70u32]);
    let plan = plan_finalize(&state, &winners, &dist).unwrap();
    assert_eq!(plan.transfers, vec![winner(0, 70), creator(30)]);
}

#[test]
fn test_post_finalize_prize_pool() {
    let env = Env::default();
    let seed: i128 = 400;
    let entry_fee: i128 = 100;
    let state = event(seed + entry_fee, 3_600);
    let winners = addresses(&env, 1);
    let dist = Vec::from_array(&env, [100u32]);
    let plan = plan_finalize(&state, &winners, &dist).unwrap();
    assert_eq!(plan.transfers, vec![winner(0, 500)]);
    assert_eq!(prize_pool(&Some(plan.event)), Ok(0i128), "prize_pool should be 0 after finalization");
    assert!(plan.event.is_finalized);
    assert_eq!(plan.event.end_time, 3_600);
}

#[test]
fn only_the_creator_may_finalize() {
    let env = Env::default();
    let state = event(100, 10);
    let creator_addr = Address::generate(&env);
    let other = Address::generate(&env);
    assert_eq!(authorize_finalize(&state, &creator_addr, &other, 20), Err(FinalizeError::NotCreator));
    assert_eq!(authorize_finalize(&state, &creator_addr, &creator_addr.clone(), 20), Ok(()));
}

#[test]
fn checks_come_in_order() {
    let mut state = event(100, 50);
    assert_eq!(check_finalize(&state, false, 10), Err(FinalizeError::NotCreator));
    assert_eq!(check_finalize(&state, true, 49), Err(FinalizeError::EventNotEnded));
    assert_eq!(check_finalize(&state, true, 50), Ok(()));
    state.is_finalized = true;
    assert_eq!(check_finalize(&state, false, 10), Err(FinalizeError::NotCreator));
    assert_eq!(check_finalize(&state, true, 10), Err(FinalizeError::AlreadyFinalized));
    assert_eq!(check_finalize(&state, true, 60), Err(FinalizeError::AlreadyFinalized));
}

#[test]
fn settled_event_cannot_be_finalized_again() {
    let env = Env::default();
    let state = event(100, 10);
    let winners = addresses(&env, 1);
    let dist = Vec::from_array(&env, [100u32]);
    let plan = plan_finalize(&state, &winners, &dist).unwrap();
    assert_eq!(check_finalize(&plan.event, true, 1_000), Err(FinalizeError::AlreadyFinalized));
}

#[test]
fn extra_percentages_go_to_creator() {
    let env = Env::default();
    let state = event(100, 0);
    let winners = addresses(&env, 1);
    let dist = Vec::from_array(&env, [50u32, 50u32]);
    let plan = plan_finalize(&state, &winners, &dist).unwrap();
    assert_eq!(plan.transfers, vec![winner(0, 50), creator(50)]);
}

#[test]
fn extra_winners_get_nothing() {
    let env = Env::default();
    let state = event(100, 0);
    let winners = addresses(&env, 3);
    let dist = Vec::from_array(&env, [60u32]);
    let plan = plan_finalize(&state, &winners, &dist).unwrap();
    assert_eq!(plan.transfers, vec![winner(0, 60), creator(40)]);
}

#[test]
fn no_winners_pay_all_to_creator() {
    let env = Env::default();
    let state = event(300, 0);
    let winners = addresses(&env, 0);
    let dist = Vec::from_array(&env, [60u32, 40u32]);
    let plan = plan_finalize(&state, &winners, &dist).unwrap();
    assert_eq!(plan.transfers, vec![creator(300)]);
}

fn mixed_table(env: &Env) -> Vec<u32> {
    let mut raw: Vec<Val> = Vec::new(env);
    raw.push_back(60u32.into_val(env));
    raw.push_back(7i64.into_val(env));
    let as_val: Val = raw.into_val(env);
    Vec::<u32>::try_from_val(env, &as_val).unwrap()
}

#[test]
fn non_u32_percentage_is_refused() {
    let env = Env::default();
    let state = event(100, 0);
    let winners = addresses(&env, 2);
    let dist = mixed_table(&env);
    assert_eq!(plan_finalize(&state, &winners, &dist).err(), Some(FinalizeError::RewardNotU32));
}

#[test]
fn non_u32_percentage_beyond_the_winners_is_not_read() {
    let env = Env::default();
    let state = event(100, 0);
    let winners = addresses(&env, 1);
    let dist = mixed_table(&env);
    let plan = plan_finalize(&state, &winners, &dist).unwrap();
    assert_eq!(plan.transfers, vec![winner(0, 60), creator(40)]);
}

#[test]
fn overflowing_pool_is_refused() {
    let env = Env::default();
    let state = event(i128::MAX, 0);
    let winners = addresses(&env, 1);
    let dist = Vec::from_array(&env, [60u32]);
    assert_eq!(plan_finalize(&state, &winners, &dist).err(), Some(FinalizeError::ArithmeticOverflow));
}

fn mixed_winners(env: &Env) -> Vec<Address> {
    let mut raw: Vec<Val> = Vec::new(env);
    raw.push_back(Address::generate(env).into_val(env));
    raw.push_back(7u32.into_val(env));
    let as_val: Val = raw.into_val(env);
    Vec::<Address>::try_from_val(env, &as_val).unwrap()
}

#[test]
fn non_address_winner_is_refused() {
    let env = Env::default();
    let state = event(100, 0);
    let winners = mixed_winners(&env);
    let dist = Vec::from_array(&env, [60u32, 40u32]);
    assert_eq!(plan_finalize(&state, &winners, &dist).err(), Some(FinalizeError::WinnerNotAddress));
}

#[test]
fn non_address_winner_with_zero_share_is_still_refused() {
    let env = Env::default();
    let state = event(100, 0);
    let winners = mixed_winners(&env);
    let dist = Vec::from_array(&env, [100u32, 0u32]);
    assert_eq!(plan_finalize(&state, &winners, &dist).err(), Some(FinalizeError::WinnerNotAddress));
}

#[test]
fn non_address_winner_beyond_the_rewards_is_not_read() {
    let env = Env::default();
    let state = event(100, 0);
    let winners = mixed_winners(&env);
    let dist = Vec::from_array(&env, [60u32]);
    let plan = plan_finalize(&state, &winners, &dist).unwrap();
    assert_eq!(plan.transfers, vec![winner(0, 60), creator(40)]);
}

#[test]
fn bad_reward_is_reported_before_bad_winner() {
    let env = Env::default();
    let state = event(100, 0);
    let winners = mixed_winners(&env);
    let dist = mixed_table(&env);
    assert_eq!(plan_finalize(&state, &winners, &dist).err(), Some(FinalizeError::RewardNotU32));
}

#[test]
fn equal_addresses_from_distinct_values_authorize() {
    let env = Env::default();
    let state = event(100, 10);
    let creator_addr = Address::generate(&env);
    let as_val: Val = creator_addr.clone().into_val(&env);
    let same_again = Address::try_from_val(&env, &as_val).unwrap();
    assert_eq!(authorize_finalize(&state, &creator_addr, &same_again, 10), Ok(()));
    let before_end = authorize_finalize(&state, &creator_addr, &same_again, 9);
    assert_eq!(before_end, Err(FinalizeError::EventNotEnded));
}
