use creator_event_manager::payout::{plan_payouts, Payee, Transfer};

fn winner(rank: u32, amount: i128) -> Transfer {
    Transfer { payee: Payee::Winner(rank), amount }
}

fn creator(amount: i128) -> Transfer {
    Transfer { payee: Payee::Creator, amount }
}

fn paid_total(ts: &[Transfer]) -> i128 {
    ts.iter().map(|t| t.amount).sum()
}

#[test]
fn exact_split_leaves_no_remainder() {
    let ts = plan_payouts(800, &vec![60, 40]).unwrap();
    assert_eq!(ts, vec![winner(0, 480), winner(1, 320)]);
    assert_eq!(paid_total(&ts), 800);
}

#[test]
fn partial_split_sends_remainder_to_creator() {
    let ts = plan_payouts(100, &vec![70]).unwrap();
    assert_eq!(ts, vec![winner(0, 70), creator(30)]);
}

#[test]
fn rounding_loss_goes_to_creator() {
    // 101 * 33 / 100 = 33.33 -> 33 for each of three winners; 2 are left over.
    let ts = plan_payouts(101, &vec![33, 33, 34]).unwrap();
    assert_eq!(ts, vec![winner(0, 33), winner(1, 33), winner(2, 34), creator(1)]);
    assert_eq!(paid_total(&ts), 101);
}

#[test]
fn no_percentages_pay_all_to_creator() {
    assert_eq!(plan_payouts(250, &vec![]).unwrap(), vec![creator(250)]);
}

#[test]
fn zero_pool_makes_no_transfer() {
    assert_eq!(plan_payouts(0, &vec![60, 40]).unwrap(), vec![]);
}

#[test]
fn zero_share_is_not_transferred() {
    // 50 * 1 / 100 rounds to 0: that winner gets no transfer.
    assert_eq!(plan_payouts(50, &vec![1, 99]).unwrap(), vec![winner(1, 49), creator(1)]);
}

#[test]
fn shares_rounding_toward_zero_on_negative_pool() {
    // -150 * 50 / 100 = -75: not transferred; the remainder -75 is not either.
    assert_eq!(plan_payouts(-150, &vec![50]).unwrap(), vec![]);
    // -1 * 50 / 100 rounds toward zero to 0.
    assert_eq!(plan_payouts(-1, &vec![50]).unwrap(), vec![]);
}

#[test]
fn percentages_over_one_hundred_pay_more_than_the_pool() {
    let ts = plan_payouts(100, &vec![80, 40]).unwrap();
    assert_eq!(ts, vec![winner(0, 80), winner(1, 40)]);
}

#[test]
fn product_overflow_is_refused() {
    assert_eq!(plan_payouts(i128::MAX, &vec![2]), None);
    assert_eq!(plan_payouts(i128::MIN, &vec![2]), None);
}

#[test]
fn running_total_overflow_is_refused() {
    let pool = i128::MAX / 100;
    assert!(plan_payouts(pool, &vec![100; 100]).is_some());
    assert_eq!(plan_payouts(pool, &vec![100; 101]), None);
}

#[test]
fn large_pool_within_range_is_paid() {
    let pool = i128::MAX / 100;
    let ts = plan_payouts(pool, &vec![100]).unwrap();
    assert_eq!(ts, vec![winner(0, pool)]);
}
