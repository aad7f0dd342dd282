use fury_contracts::token::VestingDetails;
use fury_contracts::vesting::calculate_tokens_for_this_period;

/// The block time of the test environment, in nanoseconds.
const NOW: u64 = 1_571_797_419_879_305_533;
const SECOND: u64 = 1_000_000_000;
const PERIOD: u64 = 300;
const MONTH: u64 = 30 * 24 * 60 * 60;

/// Ten tokens every 300 s, two thousand in all, starting now; nothing vested yet.
fn get_vesting_details() -> VestingDetails {
    VestingDetails {
        vesting_start_timestamp: NOW,
        initial_vesting_count: 0,
        initial_vesting_consumed: 0,
        vesting_periodicity: PERIOD,
        vesting_count_per_period: 10,
        total_vesting_token_count: 2000,
        total_claimed_tokens_till_now: 0,
        last_claimed_timestamp: NOW,
        tokens_available_to_claim: 0,
        last_vesting_timestamp: NOW,
        cliff_period: 0,
        category_address: Some("addr0002".to_string()),
    }
}

/// Moves the start back by `secs`; a schedule never vested counts from its start.
fn started_before(mut d: VestingDetails, secs: u64) -> VestingDetails {
    let vested = d.last_vesting_timestamp != d.vesting_start_timestamp;
    d.vesting_start_timestamp -= secs * SECOND;
    if !vested {
        d.last_vesting_timestamp = d.vesting_start_timestamp;
    }
    d
}

fn vested(d: VestingDetails) -> u128 {
    calculate_tokens_for_this_period("addr0002".to_string(), NOW, d).unwrap().amount
}

#[test]
fn test_vesting_at_tge_no_initial_seed_first_interval() {
    let d = started_before(get_vesting_details(), PERIOD);
    let vcpp = d.vesting_count_per_period;
    assert_eq!(vested(d), vcpp);
}

#[test]
fn test_vesting_at_tge_no_initial_seed_2_uncalc_interval() {
    let d = started_before(get_vesting_details(), PERIOD * 2 + 5);
    assert_eq!(vested(d), 20);
}

#[test]
fn test_vesting_at_tge_no_initial_seed_1vested_1uncalc_interval() {
    let mut d = get_vesting_details();
    d.tokens_available_to_claim = 10;
    d.vesting_start_timestamp = NOW - PERIOD * 2 * SECOND;
    d.last_vesting_timestamp = NOW - PERIOD * SECOND;
    assert_eq!(vested(d), 10);
}

#[test]
fn test_vesting_at_tge_no_initial_seed_1claimed_1uncalc_interval() {
    let mut d = get_vesting_details();
    d.total_claimed_tokens_till_now = 10;
    d.vesting_start_timestamp = NOW - (PERIOD * 2 + 5) * SECOND;
    d.last_vesting_timestamp = NOW - (PERIOD + 5) * SECOND;
    assert_eq!(vested(d), 10);
}

#[test]
fn test_vesting_at_tge_no_initial_seed_1claimed_half_uncalc_interval() {
    let mut d = get_vesting_details();
    d.total_claimed_tokens_till_now = 10;
    d.vesting_start_timestamp = NOW - (PERIOD * 2 + 5) * SECOND;
    d.last_vesting_timestamp = NOW - (PERIOD + 5) * SECOND;
    assert_eq!(vested(d), 10);
}

#[test]
fn test_vesting_at_tge_with_cliff() {
    let mut d = get_vesting_details();
    d.cliff_period = 1;
    d.tokens_available_to_claim += d.vesting_count_per_period;
    assert_eq!(vested(d), 0);
}

#[test]
fn test_vesting_at_tge_with_initial_seed_with_cliff() {
    let mut d = get_vesting_details();
    d.cliff_period = 1;
    d.initial_vesting_count = 1000;
    assert_eq!(vested(d), 0);
}

#[test]
fn test_vesting_at_tge_no_initial_seed_first_interval_with_cliff() {
    let mut d = get_vesting_details();
    d.cliff_period = 1;
    let d = started_before(d, PERIOD);
    assert_eq!(vested(d), 0);
}

#[test]
fn test_vesting_at_tge_with_initial_seed_first_interval_with_cliff() {
    let mut d = get_vesting_details();
    d.cliff_period = 1;
    d.initial_vesting_count = 1000;
    let d = started_before(d, PERIOD);
    assert_eq!(vested(d), 0);
}

#[test]
fn test_vesting_at_tge_no_initial_seed_2_uncalc_interval_with_cliff() {
    let mut d = get_vesting_details();
    d.cliff_period = 1;
    let d = started_before(d, PERIOD * 2 + 5);
    assert_eq!(vested(d), 0);
}

#[test]
fn test_vesting_at_tge_with_initial_seed_2_uncalc_intervalwith_cliff() {
    let mut d = get_vesting_details();
    d.cliff_period = 1;
    d.initial_vesting_count = 1000;
    let d = started_before(d, PERIOD * 2 + 5);
    assert_eq!(vested(d), 0);
}

#[test]
fn test_vesting_at_tge_no_initial_seed_1vested_1uncalc_interval_with_cliff() {
    let mut d = get_vesting_details();
    d.cliff_period = 1;
    d.tokens_available_to_claim = 10;
    d.vesting_start_timestamp = NOW - PERIOD * 2 * SECOND;
    d.last_vesting_timestamp = NOW - PERIOD * SECOND;
    assert_eq!(vested(d), 0);
}

#[test]
fn test_vesting_at_tge_no_initial_seed_1claimed_1uncalc_interval_with_cliff() {
    let mut d = get_vesting_details();
    d.cliff_period = 1;
    d.total_claimed_tokens_till_now = 10;
    d.vesting_start_timestamp = NOW - (PERIOD * 2 + 5) * SECOND;
    d.last_vesting_timestamp = NOW - (PERIOD + 5) * SECOND;
    assert_eq!(vested(d), 0);
}

#[test]
fn test_vesting_at_tge_no_initial_seed_1claimed_half_uncalc_interval_with_cliff() {
    let mut d = get_vesting_details();
    d.cliff_period = 1;
    d.total_claimed_tokens_till_now = 10;
    d.vesting_start_timestamp = NOW - (PERIOD * 2 + 5) * SECOND;
    d.last_vesting_timestamp = NOW - (PERIOD + 5) * SECOND;
    assert_eq!(vested(d), 0);
}

#[test]
fn test_vesting_at_tge_with_cliff_period_over() {
    let mut d = get_vesting_details();
    d.cliff_period = 1;
    let mut d = started_before(d, MONTH);
    d.tokens_available_to_claim += d.vesting_count_per_period;
    assert_eq!(vested(d), 0);
}

#[test]
fn test_vesting_at_tge_no_initial_seed_1vested_1uncalc_interval_with_cliff_period_over() {
    let mut d = get_vesting_details();
    d.cliff_period = 1;
    d.tokens_available_to_claim = 10;
    d.vesting_start_timestamp = NOW - (MONTH + PERIOD * 2) * SECOND;
    d.last_vesting_timestamp = NOW - PERIOD * SECOND;
    assert_eq!(vested(d), 10);
}

#[test]
fn test_vesting_at_tge_no_initial_seed_1claimed_1uncalc_interval_with_cliff_period_over() {
    let mut d = get_vesting_details();
    d.cliff_period = 1;
    d.total_claimed_tokens_till_now = 10;
    d.vesting_start_timestamp = NOW - (MONTH + PERIOD * 2 + 5) * SECOND;
    d.last_vesting_timestamp = NOW - (PERIOD + 5) * SECOND;
    assert_eq!(vested(d), 10);
}

#[test]
fn test_vesting_at_tge_no_initial_seed_1claimed_half_uncalc_interval_with_cliff_period_over() {
    let mut d = get_vesting_details();
    d.cliff_period = 1;
    d.total_claimed_tokens_till_now = 10;
    d.vesting_start_timestamp = NOW - (MONTH + PERIOD * 2 + 5) * SECOND;
    d.last_vesting_timestamp = NOW - (PERIOD + 5) * SECOND;
    assert_eq!(vested(d), 10);
}

#[test]
fn test_vesting_at_tge_with_initial_seed() {
    let mut d = get_vesting_details();
    d.initial_vesting_count = 1000;
    assert_eq!(vested(d), 1000);
}

#[test]
fn test_vesting_at_tge_with_initial_seed_first_interval() {
    let mut d = get_vesting_details();
    d.initial_vesting_count = 1000;
    let d = started_before(d, PERIOD);
    assert_eq!(vested(d), 1010);
}

#[test]
fn test_vesting_at_tge_with_initial_seed_2_uncalc_interval() {
    let mut d = get_vesting_details();
    d.initial_vesting_count = 1000;
    let d = started_before(d, PERIOD * 2 + 5);
    assert_eq!(vested(d), 1020);
}

#[test]
fn test_vesting_at_tge_with_initial_seed_with_cliff_period_over() {
    let mut d = get_vesting_details();
    d.cliff_period = 1;
    let mut d = started_before(d, MONTH);
    d.initial_vesting_count = 1000;
    assert_eq!(vested(d), 1000);
}

#[test]
fn test_vesting_at_tge_no_initial_seed_first_interval_with_cliff_period_over() {
    let mut d = get_vesting_details();
    d.cliff_period = 1;
    let d = started_before(started_before(d, MONTH), PERIOD);
    let vcpp = d.vesting_count_per_period;
    assert_eq!(vested(d), vcpp);
}

#[test]
fn test_vesting_at_tge_with_initial_seed_first_interval_with_cliff_period_over() {
    let mut d = get_vesting_details();
    d.cliff_period = 1;
    let mut d = started_before(d, MONTH);
    d.initial_vesting_count = 1000;
    let d = started_before(d, PERIOD);
    assert_eq!(vested(d), 1010);
}

#[test]
fn test_vesting_at_tge_no_initial_seed_2_uncalc_interval_with_cliff_period_over() {
    let mut d = get_vesting_details();
    d.cliff_period = 1;
    let d = started_before(started_before(d, MONTH), PERIOD * 2 + 5);
    assert_eq!(vested(d), 20);
}

#[test]
fn test_vesting_at_tge_with_initial_seed_2_uncalc_interval_with_cliff_period_over() {
    let mut d = get_vesting_details();
    d.cliff_period = 1;
    let mut d = started_before(d, MONTH);
    d.initial_vesting_count = 1000;
    let d = started_before(d, PERIOD * 2 + 5);
    assert_eq!(vested(d), 1020);
}
