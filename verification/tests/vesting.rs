use fury_contracts::token::{Cw20Coin, Expiration, Token, TokenError};
use fury_contracts::vesting::{
    advisor_address, gamified_airdrop_address, main_wallet_address, nitin_address, private_sale_address,
};

/// The block time of the test environment, in nanoseconds.
const NOW: u64 = 1_571_797_419_879_305_533;
const SECOND: u64 = 1_000_000_000;
const MAIN_BALANCE: u128 = 200_000_000_000_000;

fn s(x: &str) -> String {
    x.to_string()
}

fn token() -> Token {
    Token::instantiate(
        s("Fury Token"),
        s("FURY"),
        6,
        vec![Cw20Coin { address: main_wallet_address(), amount: MAIN_BALANCE }],
        None,
        None,
        NOW,
    )
    .unwrap()
}

#[test]
fn instantiation_lays_down_the_schedules() {
    let t = token();
    let ga = t.query_vesting_details(&gamified_airdrop_address()).unwrap();
    assert_eq!(ga.vesting_start_timestamp, NOW);
    assert_eq!(ga.initial_vesting_count, 3_950_000_000_000);
    assert_eq!(ga.vesting_count_per_period, 69_490_740_740);
    assert_eq!(ga.total_vesting_token_count, 79_000_000_000_000);
    assert_eq!(ga.vesting_periodicity, 300);
    assert_eq!(t.query_vesting_details(&advisor_address()).unwrap().cliff_period, 4);
    let nitin = t.query_vesting_details(&nitin_address()).unwrap();
    // scaled from the private sale category by 16.8 of its 42 million
    assert_eq!(nitin.total_vesting_token_count, 16_800_000_000_000);
    assert_eq!(nitin.initial_vesting_count, 1_680_000_000_000);
    assert_eq!(nitin.vesting_count_per_period, 84_000_000_000);
    assert_eq!(nitin.category_address, Some(private_sale_address()));
    assert_eq!(t.query_vesting_details(&s("nobody")).err(), Some(TokenError::NoVestingDetails));
}

#[test]
fn categories_receive_their_vested_periods() {
    let mut t = token();
    let now = NOW + 650 * SECOND;
    assert_eq!(t.periodically_transfer_to_categories(&s("someone"), now).err(), Some(TokenError::Unauthorized));
    t.periodically_transfer_to_categories(&main_wallet_address(), now).unwrap();
    // the initial seed, and two whole periods of 300 s
    let ga = 3_950_000_000_000u128 + 2 * 69_490_740_740u128;
    let ps = 4_200_000_000_000u128 + 2 * 210_000_000_000u128;
    assert_eq!(t.query_balance(&gamified_airdrop_address()), ga);
    assert_eq!(t.query_balance(&private_sale_address()), ps);
    assert_eq!(t.query_balance(&main_wallet_address()), MAIN_BALANCE - ga - ps);
    assert_eq!(t.query_token_info().total_supply, MAIN_BALANCE);
    let sched = t.query_vesting_details(&gamified_airdrop_address()).unwrap();
    assert_eq!(sched.total_claimed_tokens_till_now, ga);
    assert_eq!(sched.last_vesting_timestamp, now);
    assert_eq!(sched.initial_vesting_consumed, sched.initial_vesting_count);
    // the seed is handed out once: later transfers carry only the new periods
    let later = now + 300 * SECOND;
    t.periodically_transfer_to_categories(&main_wallet_address(), later).unwrap();
    assert_eq!(t.query_balance(&gamified_airdrop_address()), ga + 69_490_740_740);
}

#[test]
fn investors_claim_what_was_vested_for_them() {
    let mut t = token();
    let now = NOW + 650 * SECOND;
    t.periodically_transfer_to_categories(&main_wallet_address(), now).unwrap();
    t.periodically_calculate_vesting(&main_wallet_address(), now).unwrap();
    let a = t
        .allowances
        .iter()
        .find(|a| a.owner == private_sale_address() && a.spender == nitin_address())
        .unwrap();
    // the initial seed, and two whole periods
    assert_eq!(a.allowance, 1_680_000_000_000 + 2 * 84_000_000_000);
    assert_eq!(a.expires, Expiration::Never);

    let res = t.claim_vested_tokens(&nitin_address(), 100_000_000_000, 12_345, now).unwrap();
    assert_eq!(res.messages.len(), 0);
    assert_eq!(t.query_balance(&nitin_address()), 100_000_000_000);
    assert_eq!(
        t.query_balance(&private_sale_address()),
        4_200_000_000_000 + 2 * 210_000_000_000 - 100_000_000_000
    );
    let sched = t.query_vesting_details(&nitin_address()).unwrap();
    assert_eq!(sched.total_claimed_tokens_till_now, 100_000_000_000);
    assert_eq!(sched.last_claimed_timestamp, now);

    // what is left of the allowance is too little for a claim of more
    assert_eq!(
        t.claim_vested_tokens(&nitin_address(), 1_800_000_000_000, 12_345, now).err(),
        Some(TokenError::CannotSub { balance: 1_748_000_000_000, amount: 1_800_000_000_000 })
    );
}

#[test]
fn claims_need_a_schedule_under_a_category() {
    let mut t = token();
    assert_eq!(t.claim_vested_tokens(&s("nobody"), 1, 1, NOW).err(), Some(TokenError::NoVestingDetails));
    assert_eq!(t.claim_vested_tokens(&private_sale_address(), 1, 1, NOW).err(), Some(TokenError::NoParentCategory));
    assert_eq!(t.claim_vested_tokens(&nitin_address(), 1, 1, NOW).err(), Some(TokenError::NoAllowance));
}

#[test]
fn only_the_main_wallet_calculates_vesting() {
    let mut t = token();
    assert_eq!(t.periodically_calculate_vesting(&nitin_address(), NOW).err(), Some(TokenError::Unauthorized));
    assert!(t.allowances.is_empty());
}

#[test]
fn a_poor_main_wallet_hands_out_nothing() {
    let mut t = Token::instantiate(
        s("Fury Token"),
        s("FURY"),
        6,
        vec![Cw20Coin { address: main_wallet_address(), amount: 5 }],
        None,
        None,
        NOW,
    )
    .unwrap();
    let now = NOW + 650 * SECOND;
    let due = 3_950_000_000_000u128 + 2 * 69_490_740_740u128 + 4_200_000_000_000u128 + 2 * 210_000_000_000u128;
    assert_eq!(
        t.periodically_transfer_to_categories(&main_wallet_address(), now).err(),
        Some(TokenError::CannotSub { balance: 5, amount: due })
    );
    assert_eq!(t.query_balance(&main_wallet_address()), 5);
}

#[test]
fn vesting_operations_are_checked_before_they_run() {
    let mut t = token();
    let now = NOW + 650 * SECOND;
    let main = main_wallet_address();
    assert!(t.transfers_ready(&main, now));
    assert!(t.vestings_ready(&main, now));
    assert!(t.transfers_ready(&s("someone"), now));
    assert!(t.schedule_computable(&gamified_airdrop_address(), now));
    assert!(!t.schedule_computable(&s("nobody"), now));
    t.periodically_transfer_to_categories(&main, now).unwrap();
    t.periodically_calculate_vesting(&main, now).unwrap();
    assert!(t.claim_ready(&nitin_address(), 100_000_000_000, 12_345, now));
    // a claim that fails a check first needs nothing computed
    assert!(t.claim_ready(&s("nobody"), u128::MAX, 12_345, now));
    let mut sched = t.query_vesting_details(&nitin_address()).unwrap();
    sched.total_claimed_tokens_till_now = u128::MAX;
    t.vesting.save(nitin_address(), sched);
    assert!(!t.claim_ready(&nitin_address(), 100_000_000_000, 12_345, now));
    assert!(!t.vestings_ready(&main, now));
}

#[test]
fn a_schedule_never_vested_counts_from_the_end_of_its_cliff() {
    let mut t = token();
    // the advisors' cliff of four months of thirty days, and a day more
    let after_cliff = NOW + (4 * 2_592_000 + 86_400) * SECOND;
    assert!(t.schedule_computable(&advisor_address(), NOW));
    assert!(t.schedule_computable(&advisor_address(), after_cliff));
    let advisor = t.query_vesting_details(&advisor_address()).unwrap();
    let due = t.calculate_vesting_for_now(advisor_address(), after_cliff).unwrap().amount;
    // the seed, and the whole periods of the day after the cliff
    let periods = (86_400 / advisor.vesting_periodicity) as u128;
    assert_eq!(due, advisor.initial_vesting_count + periods * advisor.vesting_count_per_period);
    // before the cliff ends nothing vests, not even the seed
    assert_eq!(t.calculate_vesting_for_now(advisor_address(), NOW + 86_400 * SECOND).unwrap().amount, 0);
    // a last vesting after now leaves the periods due negative
    let mut odd = advisor;
    odd.last_vesting_timestamp = after_cliff + 10 * 86_400 * SECOND;
    t.vesting.save(advisor_address(), odd);
    assert!(!t.schedule_computable(&advisor_address(), after_cliff));
    let mut overfull = token();
    let mut ga = overfull.query_vesting_details(&gamified_airdrop_address()).unwrap();
    ga.tokens_available_to_claim = u128::MAX;
    overfull.vesting.save(gamified_airdrop_address(), ga);
    assert!(!overfull.transfers_ready(&main_wallet_address(), NOW + 650 * SECOND));
}

#[test]
fn a_claim_moves_tokens_from_available_to_claimed() {
    let mut t = token();
    let now = NOW + 650 * SECOND;
    t.periodically_transfer_to_categories(&main_wallet_address(), now).unwrap();
    t.periodically_calculate_vesting(&main_wallet_address(), now).unwrap();
    let before = t.query_vesting_details(&nitin_address()).unwrap();
    t.claim_vested_tokens(&nitin_address(), 1_000, 12_345, now).unwrap();
    let after = t.query_vesting_details(&nitin_address()).unwrap();
    assert_eq!(after.total_claimed_tokens_till_now, before.total_claimed_tokens_till_now + 1_000);
    assert_eq!(after.tokens_available_to_claim, before.tokens_available_to_claim - 1_000);
    assert_eq!(after.total_vesting_token_count, before.total_vesting_token_count);
}
