use fury_contracts::club_staking::{ClubError, ClubStaking, ClubStakingDetails, Config, FeeKind, PoolAsset};
use fury_contracts::response::{Coin, Response};

const NOW: u64 = 1_571_797_419_879_305_533;
const SECOND: u64 = 1_000_000_000;

fn config(periodicity_hours: u64) -> Config {
    Config {
        admin_address: "admin11111".to_string(),
        minting_contract_address: "minting_admin11111".to_string(),
        astro_proxy_address: "astro_proxy_address1111".to_string(),
        club_fee_collector_wallet: "club_fee_collector_wallet11111".to_string(),
        club_reward_next_timestamp: NOW - 60 * 60 * SECOND,
        reward_periodicity: periodicity_hours * 60 * 60,
        club_price: 1000000,
        bonding_duration: 5 * 60,
        platform_fees_collector_wallet: "platform_fee_collector_wallet_1111".to_string(),
        platform_fees: 100,
        transaction_fees: 30,
        control_fees: 50,
    }
}

fn setup() -> ClubStaking {
    ClubStaking::instantiate(config(24), NOW)
}

fn uusd(amount: u128) -> Vec<Coin> {
    vec![Coin { denom: "uusd".to_string(), amount }]
}

fn stake_coins(amount: u128) -> Vec<Coin> {
    vec![Coin { denom: "stake".to_string(), amount }]
}

fn buy(cs: &mut ClubStaking, sender: &str, buyer: &str, seller: Option<String>, club: &str) -> Result<Response, ClubError> {
    cs.buy_a_club(&sender.to_string(), uusd(0), buyer.to_string(), seller, club.to_string(), 1000000, false, NOW, &None)
}

fn stake(cs: &mut ClubStaking, staker: &str, club: &str, amount: u128) -> Result<Response, ClubError> {
    cs.stake_on_a_club(&"minting_admin11111".to_string(), vec![], staker.to_string(), club.to_string(), amount, NOW, &None)
}

fn withdraw(cs: &mut ClubStaking, staker: &str, amount: u128, immediate: bool) -> Result<Response, ClubError> {
    cs.withdraw_stake_from_a_club(
        &staker.to_string(),
        stake_coins(10),
        staker.to_string(),
        "CLUB001".to_string(),
        amount,
        immediate,
        NOW,
        &None,
    )
}

fn age_club(cs: &mut ClubStaking, club: &str) {
    let mut cod = cs.query_club_ownership_details(&club.to_string()).unwrap();
    cod.start_timestamp = NOW - 22 * 24 * 60 * 60 * SECOND;
    cs.ownerships.save(club.to_string(), cod);
}

#[test]
fn test_buying_of_club() {
    let mut cs = setup();
    let _ = buy(&mut cs, "Owner001", "Owner001", Some(String::new()), "CLUB001");
    let cod = cs.query_club_ownership_details(&"CLUB001".to_string()).unwrap();
    assert_eq!(cod.owner_address, "Owner001".to_string());
    assert_eq!(cod.price_paid, 1000000);
    assert_eq!(cod.owner_released, false);
    assert_eq!(cod.reward_amount, 0);
}

#[test]
fn test_owner_claim_rewards() {
    let mut cs = setup();
    let _ = buy(&mut cs, "Owner001", "Owner001", Some(String::new()), "CLUB001");
    let cod = cs.query_club_ownership_details(&"CLUB001".to_string()).unwrap();
    assert_eq!(cod.owner_address, "Owner001".to_string());
    assert_eq!(cod.price_paid, 1000000);
    assert_eq!(cod.owner_released, false);
    assert_eq!(cod.reward_amount, 0);
    let _ = cs.claim_owner_rewards(&"Owner001".to_string(), "Owner001".to_string(), "CLUB001".to_string());
    let cod = cs.query_club_ownership_details(&"CLUB001".to_string()).unwrap();
    assert_eq!(cod.owner_address, "Owner001".to_string());
    assert_eq!(cod.price_paid, 1000000);
    assert_eq!(cod.owner_released, false);
    assert_eq!(cod.reward_amount, 0);
}

#[test]
fn test_multiple_buying_of_club() {
    let mut cs = setup();
    let _ = buy(&mut cs, "Owner001", "Owner001", Some(String::new()), "CLUB001");
    let _ = cs.buy_a_club(
        &"Owner002".to_string(),
        uusd(1000),
        "Owner002".to_string(),
        Some(String::new()),
        "CLUB001".to_string(),
        1000000,
        false,
        NOW,
        &None,
    );
    let cod = cs.query_club_ownership_details(&"CLUB001".to_string()).unwrap();
    assert_eq!(cod.owner_address, "Owner001".to_string());
    assert_eq!(cod.price_paid, 1000000);
    assert_eq!(cod.owner_released, false);
}

#[test]
fn test_buying_of_club_after_releasing_by_prev_owner() {
    let mut cs = setup();
    let _ = buy(&mut cs, "Owner001", "Owner001", Some(String::new()), "CLUB001");
    let _ = cs.release_club(&"Owner001".to_string(), "Owner001".to_string(), "CLUB001".to_string(), NOW);
    let cod = cs.query_club_ownership_details(&"CLUB001".to_string()).unwrap();
    assert_eq!(cod.owner_address, "Owner001".to_string());
    assert_eq!(cod.price_paid, 1000000);
    age_club(&mut cs, "CLUB001");
    let _ = cs.release_club(&"Owner001".to_string(), "Owner001".to_string(), "CLUB001".to_string(), NOW);
    let cod = cs.query_club_ownership_details(&"CLUB001".to_string()).unwrap();
    assert_eq!(cod.owner_address, "Owner001".to_string());
    assert_eq!(cod.price_paid, 1000000);
    assert_eq!(cod.owner_released, true);
    let _ = buy(&mut cs, "Owner002", "Owner002", Some("Owner001".to_string()), "CLUB001");
    let cod = cs.query_club_ownership_details(&"CLUB001".to_string()).unwrap();
    assert_eq!(cod.owner_address, "Owner002".to_string());
    assert_eq!(cod.price_paid, 1000000);
    assert_eq!(cod.owner_released, false);
}

#[test]
fn test_claim_previous_owner_rewards() {
    let mut cs = setup();
    let _ = buy(&mut cs, "Owner001", "Owner001", Some(String::new()), "CLUB001");
    let _ = cs.release_club(&"Owner001".to_string(), "Owner001".to_string(), "CLUB001".to_string(), NOW);
    let cod = cs.query_club_ownership_details(&"CLUB001".to_string()).unwrap();
    assert_eq!(cod.owner_address, "Owner001".to_string());
    assert_eq!(cod.price_paid, 1000000);
    age_club(&mut cs, "CLUB001");
    let _ = stake(&mut cs, "Staker001", "CLUB001", 33);
    let _ = cs.increase_reward_amount(&"minting_admin11111".to_string(), "reward_from abc".to_string(), 1000000);
    let res = cs.calculate_and_distribute_rewards(&"admin11111".to_string(), NOW).unwrap();
    assert_eq!(res, Response { messages: vec![], attributes: vec![], data: None });
    let _ = cs.release_club(&"Owner001".to_string(), "Owner001".to_string(), "CLUB001".to_string(), NOW);
    let cod = cs.query_club_ownership_details(&"CLUB001".to_string()).unwrap();
    assert_eq!(cod.owner_address, "Owner001".to_string());
    assert_eq!(cod.price_paid, 1000000);
    assert_eq!(cod.owner_released, true);
    let _ = buy(&mut cs, "Owner002", "Owner002", Some("Owner001".to_string()), "CLUB001");
    let cod = cs.query_club_ownership_details(&"CLUB001".to_string()).unwrap();
    assert_eq!(cod.owner_address, "Owner002".to_string());
    assert_eq!(cod.price_paid, 1000000);
    assert_eq!(cod.owner_released, false);
    let pod = cs.query_club_previous_owner_details(&"Owner001".to_string()).unwrap();
    assert_eq!(pod.previous_owner_address, "Owner001".to_string());
    assert_eq!(pod.reward_amount, 10000);
    let _ = cs.claim_previous_owner_rewards(&"Owner001".to_string(), "Owner001".to_string());
    let err = cs.query_club_previous_owner_details(&"Owner001".to_string()).unwrap_err();
    assert_eq!(err, ClubError::NoPreviousOwnershipDetails);
}

#[test]
fn test_multiple_staking_on_club_by_same_address() {
    let mut cs = setup();
    let _ = buy(&mut cs, "Owner001", "Owner001", Some(String::new()), "CLUB001");
    let _ = stake(&mut cs, "Staker001", "CLUB001", 33);
    let _ = stake(&mut cs, "Staker001", "CLUB001", 11);
    let _ = stake(&mut cs, "Staker001", "CLUB001", 42);
    let all_stakes = cs.query_all_stakes();
    assert_eq!(all_stakes.len(), 1);
    for s in all_stakes {
        assert_eq!(s.staked_amount, 86);
    }
}

#[test]
fn test_immediate_partial_withdrawals_from_club() {
    let mut cs = setup();
    let _ = buy(&mut cs, "Owner001", "Owner001", Some(String::new()), "CLUB001");
    let _ = stake(&mut cs, "Staker001", "CLUB001", 99);
    let _ = withdraw(&mut cs, "Staker001", 11, true);
    let _ = withdraw(&mut cs, "Staker001", 12, true);
    let _ = withdraw(&mut cs, "Staker001", 13, true);
    let all_stakes = cs.query_all_stakes();
    assert_eq!(all_stakes.len(), 1);
    for s in all_stakes {
        assert_eq!(s.staked_amount, 63);
    }
    assert_eq!(cs.query_all_bonds().len(), 0);
}

#[test]
fn test_immediate_complete_withdrawals_from_club() {
    let mut cs = setup();
    let _ = buy(&mut cs, "minting_admin11111", "Owner001", Some(String::new()), "CLUB001");
    let _ = stake(&mut cs, "Staker001", "CLUB001", 99);
    let _ = withdraw(&mut cs, "Staker001", 11, true);
    let _ = withdraw(&mut cs, "Staker001", 12, true);
    let _ = withdraw(&mut cs, "Staker001", 13, true);
    let _ = withdraw(&mut cs, "Staker001", 63, true);
    assert_eq!(cs.query_all_stakes().len(), 0);
    assert_eq!(cs.query_all_bonds().len(), 0);
}

#[test]
fn test_non_immediate_complete_withdrawals_from_club() {
    let mut cs = setup();
    let _ = buy(&mut cs, "Owner001", "Owner001", Some(String::new()), "CLUB001");
    let _ = stake(&mut cs, "Staker001", "CLUB001", 99);
    let _ = withdraw(&mut cs, "Staker001", 11, false);
    let _ = withdraw(&mut cs, "Staker001", 12, false);
    let _ = withdraw(&mut cs, "Staker001", 13, false);
    let _ = withdraw(&mut cs, "Staker001", 63, false);
    assert_eq!(cs.query_all_stakes().len(), 0);
    let all_bonds = cs.query_all_bonds();
    assert_eq!(all_bonds.len(), 4);
    for b in all_bonds {
        assert!(b.bonded_amount == 11 || b.bonded_amount == 12 || b.bonded_amount == 13 || b.bonded_amount == 63);
    }
    let _ = stake(&mut cs, "Staker002", "CLUB001", 99);
    let _ = withdraw(&mut cs, "Staker002", 11, false);
    let bonds = cs.query_club_bonding_details_for_user(&"CLUB001".to_string(), &"Staker002".to_string()).unwrap();
    assert_eq!(bonds.len(), 1);
    for b in bonds {
        assert_eq!(b.bonded_amount, 11);
    }
}

#[test]
fn test_non_immediate_complete_withdrawals_from_club_with_scheduled_refunds() {
    let mut cs = setup();
    let _ = buy(&mut cs, "Owner001", "Owner001", Some(String::new()), "CLUB001");
    let _ = stake(&mut cs, "Staker001", "CLUB001", 99);
    let _ = withdraw(&mut cs, "Staker001", 11, false);
    let _ = withdraw(&mut cs, "Staker001", 12, false);
    let _ = withdraw(&mut cs, "Staker001", 13, false);
    let _ = withdraw(&mut cs, "Staker001", 63, false);
    assert_eq!(cs.query_all_stakes().len(), 0);
    let existing = cs.query_all_bonds();
    assert_eq!(existing.len(), 4);
    let mut updated = Vec::new();
    for mut b in existing {
        assert!(b.bonded_amount == 11 || b.bonded_amount == 12 || b.bonded_amount == 13 || b.bonded_amount == 63);
        if b.bonded_amount == 63 {
            b.bonding_start_timestamp = NOW - 8 * 24 * 60 * 60 * SECOND;
        }
        updated.push(b);
    }
    cs.bonds.save("CLUB001".to_string(), updated);
    let _ = cs.periodically_refund_stakeouts(&"admin11111".to_string(), NOW);
    let all_bonds = cs.query_all_bonds();
    assert_eq!(all_bonds.len(), 3);
    for b in all_bonds {
        assert!(b.bonded_amount == 11 || b.bonded_amount == 12 || b.bonded_amount == 13);
    }
}

#[test]
fn test_non_immediate_partial_withdrawals_from_club() {
    let mut cs = setup();
    let _ = buy(&mut cs, "Owner001", "Owner001", Some(String::new()), "CLUB001");
    let _ = stake(&mut cs, "Staker001", "CLUB001", 99);
    let _ = withdraw(&mut cs, "Staker001", 11, false);
    let _ = withdraw(&mut cs, "Staker001", 12, false);
    let _ = withdraw(&mut cs, "Staker001", 13, false);
    let all_stakes = cs.query_all_stakes();
    assert_eq!(all_stakes.len(), 1);
    for s in all_stakes {
        assert_eq!(s.staked_amount, 63);
    }
    let all_bonds = cs.query_all_bonds();
    assert_eq!(all_bonds.len(), 3);
    for b in all_bonds {
        assert!(b.bonded_amount == 11 || b.bonded_amount == 12 || b.bonded_amount == 13);
    }
}

#[test]
fn test_distribute_rewards() {
    let mut cs = setup();
    let _ = buy(&mut cs, "minting_admin11111", "Owner001", Some(String::new()), "CLUB001");
    let _ = buy(&mut cs, "minting_admin11111", "Owner002", Some(String::new()), "CLUB002");
    let _ = buy(&mut cs, "minting_admin11111", "Owner003", Some(String::new()), "CLUB003");
    let _ = stake(&mut cs, "Staker001", "CLUB001", 330000);
    let _ = stake(&mut cs, "Staker002", "CLUB001", 110000);
    let _ = stake(&mut cs, "Staker003", "CLUB002", 420000);
    let _ = stake(&mut cs, "Staker004", "CLUB002", 100000);
    let _ = stake(&mut cs, "Staker005", "CLUB003", 820000);
    let _ = stake(&mut cs, "Staker006", "CLUB003", 50000);
    let _ = cs.increase_reward_amount(&"minting_admin11111".to_string(), "reward_from abc".to_string(), 1000000);
    let res = cs.calculate_and_distribute_rewards(&"admin11111".to_string(), NOW).unwrap();
    assert_eq!(res, Response { messages: vec![], attributes: vec![], data: None });
    for s in cs.query_all_stakes() {
        let expected = match s.staker_address.as_str() {
            "Staker001" => 144262,
            "Staker002" => 48087,
            "Staker003" => 183606,
            "Staker004" => 43715,
            "Staker005" => 537549,
            "Staker006" => 32776,
            _ => s.reward_amount,
        };
        assert_eq!(s.reward_amount, expected);
    }
    let _ = cs.increase_reward_amount(&"minting_admin11111".to_string(), "reward_from abc".to_string(), 1000000);
    let err = cs.calculate_and_distribute_rewards(&"admin11111".to_string(), NOW).unwrap_err();
    assert_eq!(err, ClubError::RewardTimeNotArrived);
    let fresh = ClubStaking::instantiate(config(5), NOW);
    cs.config = fresh.config;
    cs.club_reward_next_timestamp = fresh.club_reward_next_timestamp;
    let res = cs.calculate_and_distribute_rewards(&"admin11111".to_string(), NOW).unwrap();
    assert_eq!(res, Response { messages: vec![], attributes: vec![], data: None });
}

fn pool(ust: u128, fury: u128) -> Option<Vec<PoolAsset>> {
    Some(vec![PoolAsset { is_native: true, amount: ust }, PoolAsset { is_native: false, amount: fury }])
}

#[test]
fn platform_fees_are_priced_through_the_pool() {
    let cs = setup();
    // the club price of 1000000 tokens is worth 2000000 uusd; 1.3% of it
    assert_eq!(cs.query_platform_fees(&FeeKind::BuyAClub, &pool(2000000, 1000000)), Ok(26000));
    // staking owes the control fee as well: 1.8% of 500 tokens at 2 uusd
    assert_eq!(cs.query_platform_fees(&FeeKind::StakeOnAClub { amount: 500 }, &pool(2000000, 1000000)), Ok(18));
    assert_eq!(cs.query_platform_fees(&FeeKind::Free, &None), Ok(0));
    assert_eq!(cs.query_platform_fees(&FeeKind::BuyAClub, &None), Err(ClubError::PoolQueryFailed));
    assert_eq!(cs.query_platform_fees(&FeeKind::BuyAClub, &pool(2000000, 0)), Err(ClubError::FeeDivideByZero));
    assert_eq!(cs.query_platform_fees(&FeeKind::BuyAClub, &pool(u128::MAX, 1)), Err(ClubError::FeeOverflow));
}

#[test]
fn a_purchase_must_pay_the_platform_fee() {
    let mut cs = setup();
    let r = cs.buy_a_club(
        &"Owner001".to_string(),
        uusd(25999),
        "Owner001".to_string(),
        None,
        "CLUB001".to_string(),
        1000000,
        true,
        NOW,
        &pool(2000000, 1000000),
    );
    assert_eq!(r.err(), Some(ClubError::InsufficientFees { required: 26000, received: 25999 }));
    assert!(cs.query_club_ownership_details(&"CLUB001".to_string()).is_err());
    let res = cs
        .buy_a_club(
            &"Owner001".to_string(),
            uusd(26000),
            "Owner001".to_string(),
            None,
            "CLUB001".to_string(),
            1000000,
            true,
            NOW,
            &pool(2000000, 1000000),
        )
        .unwrap();
    assert_eq!(cs.query_club_ownership_details(&"CLUB001".to_string()).unwrap().owner_address, "Owner001".to_string());
    assert!(!res.messages.is_empty());
}

#[test]
fn stakes_need_an_owned_club() {
    let mut cs = setup();
    assert_eq!(stake(&mut cs, "Staker001", "CLUB001", 10).err(), Some(ClubError::ClubNotAvailable));
    let _ = buy(&mut cs, "Owner001", "Owner001", None, "CLUB001");
    stake(&mut cs, "Staker001", "CLUB001", 10).unwrap();
    assert_eq!(withdraw(&mut cs, "Staker001", 11, false).err(), Some(ClubError::ExcessWithdrawal));
    assert_eq!(
        cs.claim_rewards(&"Staker002".to_string(), "Staker001".to_string(), "CLUB001".to_string()).err(),
        Some(ClubError::Unauthorized)
    );
    assert_eq!(
        cs.claim_rewards(&"Staker001".to_string(), "Staker001".to_string(), "CLUB001".to_string()).err(),
        Some(ClubError::NoRewardsForUser)
    );
}

#[test]
fn only_the_token_contract_adds_to_the_reward() {
    let mut cs = setup();
    assert_eq!(cs.increase_reward_amount(&"someone".to_string(), "x".to_string(), 5).err(), Some(ClubError::Unauthorized));
    cs.increase_reward_amount(&"minting_admin11111".to_string(), "x".to_string(), 5).unwrap();
    cs.increase_reward_amount(&"minting_admin11111".to_string(), "y".to_string(), 7).unwrap();
    assert_eq!(cs.query_reward_amount(), 12);
}

#[test]
fn bonds_are_measured_against_the_block_time() {
    let mut cs = setup();
    let _ = buy(&mut cs, "Owner001", "Owner001", None, "CLUB001");
    stake(&mut cs, "Staker001", "CLUB001", 100).unwrap();
    withdraw(&mut cs, "Staker001", 40, false).unwrap();
    assert!(cs.bonds_measured(NOW));
    // a bonding period of five minutes cannot be measured back from the fourth second
    assert!(!cs.bonds_measured(4 * SECOND));
    assert!(lib_can_subtract(300 * SECOND, 300));
    assert!(!lib_can_subtract(299 * SECOND, 300));
    assert!(!lib_can_subtract(u64::MAX, u64::MAX));
}

fn lib_can_subtract(ts: u64, secs: u64) -> bool {
    fury_contracts::club_staking::can_subtract_seconds(ts, secs)
}

#[test]
fn stakes_and_purchases_are_checked_for_overflow() {
    let mut cs = setup();
    let _ = buy(&mut cs, "Owner001", "Owner001", None, "CLUB001");
    stake(&mut cs, "Staker001", "CLUB001", 100).unwrap();
    let sender = "minting_admin11111".to_string();
    let club = "CLUB001".to_string();
    assert!(cs.stake_ready(&sender, &vec![], &"Staker001".to_string(), &club, 5, &None));
    assert!(!cs.stake_ready(&sender, &vec![], &"Staker001".to_string(), &club, u128::MAX, &None));
    // the coins sent along are summed where a fee is priced
    let coins = vec![Coin { denom: "uusd".to_string(), amount: u128::MAX }, Coin { denom: "uusd".to_string(), amount: 1 }];
    let someone = "Staker002".to_string();
    assert!(!cs.stake_ready(&someone, &coins, &someone, &club, 5, &pool(2000000, 1000000)));
    assert!(cs.stake_ready(&someone, &coins, &someone, &club, 5, &None));
    assert!(cs.buy_ready(&uusd(5), &None, &club, 1000000, true, &pool(2000000, 1000000)));
    assert!(!cs.buy_ready(&coins, &None, &club, 1000000, true, &pool(2000000, 1000000)));
    assert!(cs.buy_ready(&coins, &None, &club, 1000000, false, &pool(2000000, 1000000)));
}

#[test]
fn withdrawals_are_checked_for_overflow() {
    let mut cs = setup();
    let _ = buy(&mut cs, "Owner001", "Owner001", None, "CLUB001");
    stake(&mut cs, "Staker001", "CLUB001", 100).unwrap();
    let staker = "Staker001".to_string();
    let club = "CLUB001".to_string();
    assert!(cs.withdraw_ready(&staker, &staker, &vec![], &club, 50, true, NOW, &None));
    // someone else's withdrawal is refused before anything is computed
    assert!(cs.withdraw_ready(&"Staker002".to_string(), &staker, &vec![], &club, u128::MAX, true, NOW, &None));
    cs.staking_funds.save(staker.clone(), 10);
    assert!(!cs.withdraw_ready(&staker, &staker, &vec![], &club, 50, true, NOW, &None));
    assert!(cs.withdraw_ready(&staker, &staker, &vec![], &club, 50, false, NOW, &None));
}

#[test]
fn distributions_are_checked_before_they_run() {
    let mut cs = setup();
    let admin = "admin11111".to_string();
    assert!(cs.distribution_ready(&admin, NOW));
    assert!(cs.stakes_rankable());
    let _ = buy(&mut cs, "Owner001", "Owner001", None, "CLUB001");
    stake(&mut cs, "Staker001", "CLUB001", 100).unwrap();
    cs.increase_reward_amount(&"minting_admin11111".to_string(), "x".to_string(), 1000).unwrap();
    assert!(cs.distribution_ready(&admin, NOW));
    // an owner's reward that cannot take the rest of the reward
    let mut cod = cs.query_club_ownership_details(&"CLUB001".to_string()).unwrap();
    cod.reward_amount = u128::MAX;
    cs.ownerships.save("CLUB001".to_string(), cod);
    assert!(!cs.distribution_ready(&admin, NOW));
    // only the admin's distribution is computed
    assert!(cs.distribution_ready(&"someone".to_string(), NOW));
    // a reward time in the past with no reward period never catches up
    let mut stuck = setup();
    stuck.config.reward_periodicity = 0;
    assert!(!stuck.distribution_ready(&admin, NOW));
    assert!(stuck.distribution_ready(&admin, stuck.club_reward_next_timestamp));
}

#[test]
fn a_second_refund_at_the_same_time_drops_nothing() {
    let mut cs = setup();
    let _ = buy(&mut cs, "Owner001", "Owner001", None, "CLUB001");
    stake(&mut cs, "Staker001", "CLUB001", 100).unwrap();
    withdraw(&mut cs, "Staker001", 40, false).unwrap();
    let later = NOW + 301 * SECOND;
    let admin = "admin11111".to_string();
    cs.withdraw_stake_from_a_club(
        &"Staker001".to_string(),
        stake_coins(10),
        "Staker001".to_string(),
        "CLUB001".to_string(),
        10,
        false,
        later,
        &None,
    )
    .unwrap();
    assert_eq!(cs.query_all_bonds().len(), 2);
    cs.periodically_refund_stakeouts(&admin, later).unwrap();
    let once = cs.query_all_bonds();
    assert_eq!(once.len(), 1);
    assert_eq!(once[0].bonded_amount, 10);
    cs.periodically_refund_stakeouts(&admin, later).unwrap();
    assert_eq!(cs.query_all_bonds(), once);
}

#[test]
fn rewards_are_summed_before_they_are_collected() {
    let mut cs = setup();
    let staker = "Staker001".to_string();
    let club = "CLUB001".to_string();
    assert!(cs.rewards_summable(&staker, &club));
    let one = |reward: u128| ClubStakingDetails {
        staker_address: staker.clone(),
        staking_start_timestamp: NOW,
        staked_amount: 10,
        staking_duration: 0,
        club_name: club.clone(),
        reward_amount: reward,
    };
    cs.stakes.save(club.clone(), vec![one(u128::MAX - 1), one(1)]);
    assert!(cs.rewards_summable(&staker, &club));
    cs.stakes.save(club.clone(), vec![one(u128::MAX - 1), one(2)]);
    assert!(!cs.rewards_summable(&staker, &club));
    assert!(cs.rewards_summable(&"Staker002".to_string(), &club));
}

#[test]
fn a_stake_taken_off_again_leaves_the_stakes_as_they_were() {
    let mut cs = setup();
    let _ = buy(&mut cs, "Owner001", "Owner001", None, "CLUB001");
    stake(&mut cs, "Staker001", "CLUB001", 100).unwrap();
    let before = cs.query_club_staking_details(&"CLUB001".to_string()).unwrap();
    stake(&mut cs, "Staker002", "CLUB001", 50).unwrap();
    assert_eq!(cs.query_club_staking_details(&"CLUB001".to_string()).unwrap().len(), 2);
    cs.withdraw_stake_from_a_club(
        &"Staker002".to_string(),
        stake_coins(10),
        "Staker002".to_string(),
        "CLUB001".to_string(),
        50,
        false,
        NOW,
        &None,
    )
    .unwrap();
    assert_eq!(cs.query_club_staking_details(&"CLUB001".to_string()).unwrap(), before);
    stake(&mut cs, "Staker001", "CLUB001", 30).unwrap();
    withdraw(&mut cs, "Staker001", 30, false).unwrap();
    assert_eq!(cs.query_club_staking_details(&"CLUB001".to_string()).unwrap(), before);
}

#[test]
fn a_club_keeps_one_stake_per_staker_and_none_of_zero() {
    let mut cs = setup();
    let _ = buy(&mut cs, "Owner001", "Owner001", None, "CLUB001");
    stake(&mut cs, "Staker001", "CLUB001", 100).unwrap();
    stake(&mut cs, "Staker001", "CLUB001", 50).unwrap();
    stake(&mut cs, "Staker002", "CLUB001", 10).unwrap();
    let l = cs.query_club_staking_details(&"CLUB001".to_string()).unwrap();
    assert_eq!(l.len(), 2);
    assert_eq!(l[0].staked_amount, 150);
    withdraw(&mut cs, "Staker001", 150, false).unwrap();
    let l = cs.query_club_staking_details(&"CLUB001".to_string()).unwrap();
    assert_eq!(l.len(), 1);
    assert_eq!(l[0].staker_address, "Staker002".to_string());
}

#[test]
fn the_gains_of_a_distribution_sum_to_the_reward() {
    let mut cs = setup();
    let _ = buy(&mut cs, "minting_admin11111", "Owner001", Some(String::new()), "CLUB001");
    let _ = buy(&mut cs, "minting_admin11111", "Owner002", Some(String::new()), "CLUB002");
    let _ = stake(&mut cs, "Staker001", "CLUB001", 330000);
    let _ = stake(&mut cs, "Staker002", "CLUB001", 110000);
    let _ = stake(&mut cs, "Staker003", "CLUB002", 420000);
    let _ = cs.increase_reward_amount(&"minting_admin11111".to_string(), "x".to_string(), 1000003);
    cs.calculate_and_distribute_rewards(&"admin11111".to_string(), NOW).unwrap();
    let stakers: u128 = cs.query_all_stakes().iter().map(|s| s.reward_amount).sum();
    let owners: u128 = cs.query_all_club_ownership_details().iter().map(|o| o.reward_amount).sum();
    assert_eq!(stakers + owners, 1000003);
    assert_eq!(cs.query_reward_amount(), 0);
}
