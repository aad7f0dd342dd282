use fury_contracts::club_staking_basic::{
    calculate_20_80_share, BasicClubError, BasicClubStaking, Config, CLUB_PRICE, LOCKING_PERIOD,
};

const NOW: u64 = 1_571_797_419_879_305_533;

fn s(x: &str) -> String {
    x.to_string()
}

fn club() -> BasicClubStaking {
    BasicClubStaking::instantiate(Config { cw20_token_address: s("token"), admin_address: s("admin") })
}

#[test]
fn a_club_is_bought_once() {
    let mut c = club();
    assert_eq!(c.buy_a_club(&s("Owner001"), s("Owner002"), s("CLUB001"), CLUB_PRICE, NOW).err(), Some(BasicClubError::Unauthorized));
    c.buy_a_club(&s("Owner001"), s("Owner001"), s("CLUB001"), CLUB_PRICE, NOW).unwrap();
    let o = c.query_club_ownership_details(&s("CLUB001")).unwrap();
    assert_eq!(o.owner_address, s("Owner001"));
    assert_eq!(o.locking_period, LOCKING_PERIOD);
    assert_eq!(o.price_paid, CLUB_PRICE);
    assert_eq!(o.start_timestamp, NOW);
    assert_eq!(
        c.buy_a_club(&s("Owner002"), s("Owner002"), s("CLUB001"), CLUB_PRICE, NOW).err(),
        Some(BasicClubError::ClubAlreadyOwned)
    );
    assert_eq!(c.contract_wallet.get(&s("Owner001")), Some(&CLUB_PRICE));
    assert_eq!(c.query_club_ownership_details(&s("CLUB002")).err(), Some(BasicClubError::NoOwnershipDetails));
}

#[test]
fn stakes_go_to_owned_clubs_and_rank_them() {
    let mut c = club();
    assert_eq!(c.stake_on_a_club(&s("Staker001"), s("Staker001"), s("CLUB001"), 10, 5, NOW).err(), Some(BasicClubError::ClubNotAvailable));
    c.buy_a_club(&s("Owner001"), s("Owner001"), s("CLUB001"), CLUB_PRICE, NOW).unwrap();
    c.buy_a_club(&s("Owner002"), s("Owner002"), s("CLUB002"), CLUB_PRICE, NOW).unwrap();
    c.stake_on_a_club(&s("Staker001"), s("Staker001"), s("CLUB001"), 10, 5, NOW).unwrap();
    c.stake_on_a_club(&s("Staker002"), s("Staker002"), s("CLUB002"), 30, 5, NOW).unwrap();
    c.stake_on_a_club(&s("Staker001"), s("Staker001"), s("CLUB001"), 15, 7, NOW).unwrap();
    assert_eq!(c.stake_on_a_club(&s("Staker002"), s("Staker001"), s("CLUB001"), 1, 1, NOW).err(), Some(BasicClubError::Unauthorized));
    let stakes = c.query_club_staking_details(&s("CLUB001")).unwrap();
    assert_eq!(stakes.iter().map(|x| (x.staked_amount, x.staking_duration)).collect::<Vec<_>>(), vec![(10, 5), (15, 7)]);
    assert_eq!(c.query_all_stakes().len(), 3);
    assert_eq!(c.get_clubs_ranking_by_stakes(), vec![(s("CLUB002"), 30), (s("CLUB001"), 25)]);
    assert_eq!(c.contract_wallet.get(&s("Staker001")), Some(&25));
    assert_eq!(c.query_club_staking_details(&s("CLUB003")).err(), Some(BasicClubError::NoStakingDetails));
}

#[test]
fn the_token_contract_cannot_set_the_reward() {
    let mut c = club();
    assert_eq!(c.set_reward_amount(&s("token"), 5).err(), Some(BasicClubError::Unauthorized));
    c.set_reward_amount(&s("admin"), 500).unwrap();
    assert_eq!(c.query_reward_amount(), 500);
    assert_eq!(c.calculate_and_distribute_rewards(&s("token")).err(), Some(BasicClubError::Unauthorized));
    assert!(c.calculate_and_distribute_rewards(&s("admin")).is_ok());
}

#[test]
fn rewards_split_twenty_eighty() {
    assert_eq!(calculate_20_80_share(1000), (200, 800));
    assert_eq!(calculate_20_80_share(7), (1, 5));
    // a product that overflows counts as nothing
    assert_eq!(calculate_20_80_share(u128::MAX), (0, 0));
}
