use fury_contracts::gaming_pool::{
    GameError, GameResult, GamingPool, WalletPercentage, GAME_CANCELLED, GAME_COMPLETED, GAME_POOL_OPEN,
};
use fury_contracts::response::{Msg, TokenCall};

const ADMIN: &str = "admin11111";
const TOKEN: &str = "cwtoken11111";
const PLATFORM_FEE: u128 = 300000;
const POOL_FEE: u128 = 144262;

fn s(x: &str) -> String {
    x.to_string()
}

fn new_pool() -> GamingPool {
    GamingPool::instantiate(s(ADMIN), s(TOKEN), PLATFORM_FEE)
}

fn rake_list() -> Vec<WalletPercentage> {
    vec![
        WalletPercentage { wallet_address: s("rake_1"), wallet_name: s("rake_1"), percentage: 1 },
        WalletPercentage { wallet_address: s("rake_2"), wallet_name: s("rake_2"), percentage: 2 },
        WalletPercentage { wallet_address: s("rake_3"), wallet_name: s("rake_3"), percentage: 3 },
    ]
}

fn set_type(g: &mut GamingPool, pool_type: &str, min: u32, max: u32, per_gamer: u32) {
    g.set_pool_type_params(&s(ADMIN), s(pool_type), POOL_FEE, min, max, per_gamer, rake_list()).unwrap();
}

fn new_pool_id(g: &mut GamingPool, game: &str, pool_type: &str) -> String {
    let rsp = g.create_pool(&s(ADMIN), s(game), s(pool_type)).unwrap();
    rsp.attributes[0].value.clone()
}

fn bid(g: &mut GamingPool, gamer: &str, pool_type: &str, pool_id: &str, team: &str) -> Result<(), GameError> {
    g.game_pool_bid_submit(&s(TOKEN), s(gamer), s(pool_type), s(pool_id), s("Game001"), s(team), POOL_FEE + PLATFORM_FEE)
        .map(|_| ())
}

fn save_team(g: &mut GamingPool, gamer: &str, pool_id: &str, team: &str, game: &str, pool_type: &str) -> String {
    let rsp = g
        .save_team_details(s(gamer), s(pool_id), s(team), s(game), s(pool_type), POOL_FEE, false, 0, false, 100, 2)
        .unwrap();
    rsp.attributes[0].value.clone()
}

fn results() -> Vec<GameResult> {
    let one = |team: &str, rank: u64, points: u64, reward: u128| GameResult {
        gamer_address: s("Gamer002"),
        game_id: s("Game001"),
        team_id: s(team),
        team_rank: rank,
        team_points: points,
        reward_amount: reward,
        refund_amount: 0,
    };
    vec![one("Team001", 1, 100, 100), one("Team002", 2, 200, 200), one("Team003", 2, 300, 300)]
}

/// A game with one pool of type `oneToTwo` and three teams of Gamer002 in it.
fn three_team_pool(min_teams: u32, max_teams: u32) -> (GamingPool, String) {
    let mut g = new_pool();
    set_type(&mut g, "oneToTwo", min_teams, max_teams, 5);
    g.create_game(&s(ADMIN), s("Game001")).unwrap();
    let pool_id = new_pool_id(&mut g, "Game001", "oneToTwo");
    for team in ["Team001", "Team002", "Team003"] {
        bid(&mut g, "Gamer002", "oneToTwo", &pool_id, team).unwrap();
    }
    assert_eq!(g.query_pool_details(&pool_id).unwrap().current_teams_count, 3u32);
    (g, pool_id)
}

fn lock(g: &mut GamingPool) {
    let rsp = g.lock_game(&s(ADMIN), s("Game001")).unwrap();
    assert_eq!(rsp.attributes[1].value.clone(), s("GAME_POOL_CLOSED"));
}

fn rewards_of(g: &GamingPool, pool_id: &str) -> Vec<u128> {
    g.query_pool_team_details(&s(pool_id)).unwrap().iter().map(|t| t.reward_amount).collect()
}

#[test]
fn test_create_and_query_game() {
    let mut g = new_pool();
    g.create_game(&s(ADMIN), s("Game001")).unwrap();
    let game = g.query_game_details(&s("Game001")).unwrap();
    assert_eq!(game.game_id, s("Game001"));
    assert_eq!(game.game_status, GAME_POOL_OPEN);
}

#[test]
fn test_create_and_query_pool_detail() {
    let mut g = new_pool();
    g.create_game(&s(ADMIN), s("Game001")).unwrap();
    let pool_id = new_pool_id(&mut g, "Game001", "oneToOne");
    let pool = g.query_pool_details(&pool_id).unwrap();
    assert_eq!(pool.game_id, s("Game001"));
    assert_eq!(pool.pool_type, s("oneToOne"));
}

#[test]
fn test_save_and_query_team_detail() {
    let mut g = new_pool();
    g.create_game(&s(ADMIN), s("Game001")).unwrap();
    let pool_id = new_pool_id(&mut g, "Game001", "oneToOne");
    let team_id = save_team(&mut g, "Gamer001", &pool_id, "Team001", "Game001", "oneToOne");
    let team = g.query_team_details(&pool_id, &team_id).unwrap();
    assert_eq!(team.pool_id, pool_id);
}

#[test]
fn test_get_team_count_for_user_in_pool_type() {
    let mut g = new_pool();
    g.create_game(&s(ADMIN), s("Game001")).unwrap();
    let pool_id = new_pool_id(&mut g, "Game001", "oneToOne");
    for team in ["Team001", "Team002", "Team003"] {
        save_team(&mut g, "Gamer001", &pool_id, team, "Game001", "oneToOne");
    }
    let count = g.get_team_count_for_user_in_pool_type(&s("Gamer001"), &s("Game001"), &s("oneToOne"));
    assert_eq!(count, 3);
}

#[test]
fn test_query_all_teams() {
    let mut g = new_pool();
    g.create_game(&s(ADMIN), s("Game001")).unwrap();
    let pool_id = new_pool_id(&mut g, "Game001", "oneToOne");
    for team in ["Team001", "Team002", "Team003"] {
        save_team(&mut g, "Gamer001", &pool_id, team, "Game001", "oneToOne");
    }
    g.create_game(&s(ADMIN), s("Game002")).unwrap();
    let pool_id = new_pool_id(&mut g, "Game002", "many");
    for team in ["Team004", "Team005", "Team006"] {
        save_team(&mut g, "Gamer001", &pool_id, team, "Game002", "many");
    }
    assert_eq!(g.query_all_teams().unwrap().len(), 6);
}

#[test]
fn test_game_pool_bid_submit_when_pool_team_in_range() {
    let mut g = new_pool();
    set_type(&mut g, "oneToOne", 2, 10, 2);
    g.create_game(&s(ADMIN), s("Game001")).unwrap();
    let pool_id = new_pool_id(&mut g, "Game001", "oneToOne");
    // The bid comes from the gamer rather than the token contract.
    let r = g.game_pool_bid_submit(
        &s("Gamer001"),
        s("Gamer001"),
        s("oneToOne"),
        pool_id.clone(),
        s("Game001"),
        s("Team001"),
        POOL_FEE + PLATFORM_FEE,
    );
    assert_eq!(r, Err(GameError::Unauthorized { invoker: s("Gamer001") }));
    assert_eq!(g.query_pool_details(&s("1")).unwrap().pool_id, s("1"));
}

#[test]
fn test_game_pool_bid_submit_when_pool_team_not_in_range() {
    let mut g = new_pool();
    set_type(&mut g, "oneToOne", 1, 1, 1);
    g.create_game(&s(ADMIN), s("Game001")).unwrap();
    let pool_id = new_pool_id(&mut g, "Game001", "oneToOne");
    for _ in 0..2 {
        let _ = g.game_pool_bid_submit(
            &s("Gamer001"),
            s("Gamer001"),
            s("oneToOne"),
            pool_id.clone(),
            s("Game001"),
            s("Team001"),
            POOL_FEE + PLATFORM_FEE,
        );
    }
    // There is no pool with id 2.
    assert!(g.query_pool_details(&s("2")).is_err());
}

#[test]
fn test_crete_different_pool_type_and_add_multiple_game_for_given_user() {
    let mut g = new_pool();
    set_type(&mut g, "oneToOne", 2, 10, 10);
    set_type(&mut g, "multiple", 2, 10, 10);
    g.create_game(&s(ADMIN), s("Game001")).unwrap();
    let pool_1 = new_pool_id(&mut g, "Game001", "oneToOne");
    let pool_2 = new_pool_id(&mut g, "Game001", "multiple");
    let pool_3 = new_pool_id(&mut g, "Game001", "oneToOne");

    for team in ["Team001", "Team001", "Team002", "Team003"] {
        bid(&mut g, "Gamer001", "oneToOne", &pool_1, team).unwrap();
    }
    assert_eq!(g.query_pool_details(&pool_1).unwrap().current_teams_count, 4u32);

    for team in ["Team003", "Team004", "Team005"] {
        bid(&mut g, "Gamer001", "multiple", &pool_2, team).unwrap();
    }
    assert_eq!(g.query_pool_details(&pool_2).unwrap().current_teams_count, 3u32);

    bid(&mut g, "Gamer001", "oneToOne", &pool_3, "Team001").unwrap();
    bid(&mut g, "Gamer001", "multiple", &pool_3, "Team004").unwrap();
    assert_eq!(g.query_pool_details(&pool_3).unwrap().current_teams_count, 2u32);
}

#[test]
fn test_max_team_per_pool_type_for_given_user() {
    let mut g = new_pool();
    set_type(&mut g, "oneToTwo", 2, 10, 2);
    g.create_game(&s(ADMIN), s("Game001")).unwrap();
    let pool_1 = new_pool_id(&mut g, "Game001", "oneToTwo");
    bid(&mut g, "Gamer002", "oneToTwo", &pool_1, "Team001").unwrap();
    bid(&mut g, "Gamer002", "oneToTwo", &pool_1, "Team002").unwrap();
    assert_eq!(bid(&mut g, "Gamer002", "oneToTwo", &pool_1, "Team003"), Err(GameError::UserMaxTeamLimit));
    // At most two teams of a gamer in one pool type.
    assert_eq!(g.query_pool_details(&pool_1).unwrap().current_teams_count, 2u32);
}

#[test]
fn test_game_pool_reward_distribute() {
    let (mut g, pool_id) = three_team_pool(2, 10);
    lock(&mut g);
    g.game_pool_reward_distribute(&s(ADMIN), s("Game001"), pool_id.clone(), results()).unwrap();
    assert_eq!(g.query_game_details(&s("Game001")).unwrap().game_status, GAME_COMPLETED);
    assert_eq!(rewards_of(&g, &pool_id), vec![100, 200, 300]);
}

#[test]
fn test_claim_refund() {
    let mut g = new_pool();
    set_type(&mut g, "oneToTwo", 2, 10, 5);
    g.create_game(&s(ADMIN), s("Game001")).unwrap();
    let pool_id = new_pool_id(&mut g, "Game001", "oneToTwo");
    bid(&mut g, "Gamer002", "oneToTwo", &pool_id, "Team001").unwrap();
    g.cancel_game(&s(ADMIN), s("Game001")).unwrap();
    let rsp = g.claim_refund(&s("Gamer002"), s("Gamer002")).unwrap();
    assert_eq!(rsp.attributes[0].value.clone(), (POOL_FEE + PLATFORM_FEE).to_string());
}

#[test]
fn test_cancel_game() {
    let (mut g, pool_id) = three_team_pool(2, 10);
    lock(&mut g);
    g.cancel_game(&s(ADMIN), s("Game001")).unwrap();
    assert_eq!(g.query_game_details(&s("Game001")).unwrap().game_status, GAME_CANCELLED);
    assert_eq!(rewards_of(&g, &pool_id), vec![0, 0, 0]);
}

#[test]
fn test_claim_reward() {
    let (mut g, pool_id) = three_team_pool(2, 10);
    lock(&mut g);
    g.game_pool_reward_distribute(&s(ADMIN), s("Game001"), pool_id.clone(), results()).unwrap();
    assert_eq!(g.query_game_details(&s("Game001")).unwrap().game_status, GAME_COMPLETED);
    assert_eq!(rewards_of(&g, &pool_id), vec![100, 200, 300]);
    let rsp = g.claim_reward(&s("Gamer002"), s("Gamer002")).unwrap();
    assert_eq!(rsp.attributes[0].value.clone(), s("600"));
    assert_eq!(g.query_game_details(&s("Game001")).unwrap().game_status, GAME_COMPLETED);
    let teams = g.query_pool_team_details(&pool_id).unwrap();
    assert_eq!(teams.iter().map(|t| t.reward_amount).collect::<Vec<_>>(), vec![100, 200, 300]);
    assert!(teams.iter().all(|t| t.claimed_reward));
}

#[test]
fn test_claim_reward_twice() {
    let (mut g, pool_id) = three_team_pool(2, 10);
    lock(&mut g);
    g.game_pool_reward_distribute(&s(ADMIN), s("Game001"), pool_id.clone(), results()).unwrap();
    assert_eq!(g.query_game_details(&s("Game001")).unwrap().game_status, GAME_COMPLETED);
    assert_eq!(rewards_of(&g, &pool_id), vec![100, 200, 300]);
    let rsp = g.claim_reward(&s("Gamer002"), s("Gamer002")).unwrap();
    assert_eq!(rsp.attributes[0].value.clone(), s("600"));
    let teams = g.query_pool_team_details(&pool_id).unwrap();
    assert!(teams.iter().all(|t| t.claimed_reward));
    assert_eq!(g.claim_reward(&s("Gamer002"), s("Gamer002")), Err(GameError::NoReward));
}

#[test]
fn test_refund_game_pool_close_with_team_less_than_minimum_team_count() {
    let (mut g, pool_id) = three_team_pool(10, 20);
    lock(&mut g);
    let teams = g.query_pool_team_details(&pool_id).unwrap();
    for team in teams.iter() {
        assert_eq!(g.gaming_funds.get(&team.gamer_address), Some(&0u128));
    }
}

#[test]
fn test_cancel_on_completed_game() {
    let (mut g, pool_id) = three_team_pool(2, 10);
    lock(&mut g);
    g.game_pool_reward_distribute(&s(ADMIN), s("Game001"), pool_id, results()).unwrap();
    assert_eq!(g.query_game_details(&s("Game001")).unwrap().game_status, GAME_COMPLETED);
    assert_eq!(g.cancel_game(&s(ADMIN), s("Game001")), Err(GameError::CancelCompletedGame));
}

#[test]
fn test_reward_distribute_non_completed_game() {
    let mut g = new_pool();
    set_type(&mut g, "oneToTwo", 2, 10, 5);
    g.create_game(&s(ADMIN), s("Game001")).unwrap();
    let pool_id = new_pool_id(&mut g, "Game001", "oneToTwo");
    let r = g.game_pool_reward_distribute(&s(ADMIN), s("Game001"), pool_id.clone(), results());
    assert_eq!(r, Err(GameError::RewardsForOpenGame));
    for team in ["Team001", "Team002", "Team003"] {
        bid(&mut g, "Gamer002", "oneToTwo", &pool_id, team).unwrap();
    }
    assert_eq!(g.query_pool_details(&pool_id).unwrap().current_teams_count, 3u32);
    let r = g.game_pool_reward_distribute(&s(ADMIN), s("Game001"), pool_id, results());
    assert_eq!(r, Err(GameError::RewardsForOpenGame));
}

#[test]
fn test_game_pool_reward_distribute_again() {
    let (mut g, pool_id) = three_team_pool(2, 10);
    lock(&mut g);
    g.game_pool_reward_distribute(&s(ADMIN), s("Game001"), pool_id.clone(), results()).unwrap();
    assert_eq!(g.query_game_details(&s("Game001")).unwrap().game_status, GAME_COMPLETED);
    assert_eq!(rewards_of(&g, &pool_id), vec![100, 200, 300]);
    let r = g.game_pool_reward_distribute(&s(ADMIN), s("Game001"), pool_id, results());
    assert_eq!(r, Err(GameError::RewardsAlreadyDistributed));
}

#[test]
fn test_set_platform_fee_wallets() {
    let mut g = new_pool();
    g.set_platform_fee_wallets(&s(ADMIN), rake_list()).unwrap();
    // Wallets are stored under their names; there is none named "test".
    assert!(g.platform_wallets.get(&s("test")).is_none());
    assert_eq!(g.platform_wallets.get(&s("rake_2")).map(|w| w.percentage), Some(2));
}

#[test]
fn set_platform_fee_wallets_needs_the_admin() {
    let mut g = new_pool();
    let r = g.set_platform_fee_wallets(&s("someone"), rake_list());
    assert_eq!(r, Err(GameError::Unauthorized { invoker: s("someone") }));
    assert_eq!(g.platform_wallets.len(), 0);
}

#[test]
fn pool_ids_count_up_in_decimal() {
    let mut g = new_pool();
    g.create_game(&s(ADMIN), s("Game001")).unwrap();
    let mut last = String::new();
    for _ in 0..12 {
        last = new_pool_id(&mut g, "Game001", "oneToOne");
    }
    assert_eq!(last, s("12"));
}

#[test]
fn bid_with_wrong_amount_is_refused() {
    let mut g = new_pool();
    set_type(&mut g, "oneToTwo", 2, 10, 5);
    g.create_game(&s(ADMIN), s("Game001")).unwrap();
    let pool_id = new_pool_id(&mut g, "Game001", "oneToTwo");
    let r = g.game_pool_bid_submit(&s(TOKEN), s("Gamer002"), s("oneToTwo"), pool_id.clone(), s("Game001"), s("Team001"), POOL_FEE);
    assert_eq!(r, Err(GameError::BidAmountMismatch));
    assert_eq!(g.query_pool_details(&pool_id).unwrap().current_teams_count, 0u32);
}

#[test]
fn bid_on_locked_game_is_refused() {
    let (mut g, pool_id) = three_team_pool(2, 10);
    lock(&mut g);
    assert_eq!(bid(&mut g, "Gamer002", "oneToTwo", &pool_id, "Team004"), Err(GameError::GameNotOpen));
    assert_eq!(g.lock_game(&s(ADMIN), s("Game001")).err(), Some(GameError::LockNotOpenGame));
}

#[test]
fn claim_pays_the_sum_by_token_transfer_and_leaves_nothing() {
    let (mut g, pool_id) = three_team_pool(2, 10);
    lock(&mut g);
    g.game_pool_reward_distribute(&s(ADMIN), s("Game001"), pool_id, results()).unwrap();
    assert_eq!(g.query_reward(&s("Gamer002")), 600);
    let rsp = g.claim_reward(&s("Gamer002"), s("Gamer002")).unwrap();
    assert_eq!(
        rsp.messages,
        vec![Msg::Token { contract: s(TOKEN), call: TokenCall::Transfer { recipient: s("Gamer002"), amount: 600 } }]
    );
    assert_eq!(rsp.data, Some(s("Amount 600 transferred")));
    assert_eq!(g.query_reward(&s("Gamer002")), 0);
}

#[test]
fn claim_for_another_gamer_is_refused() {
    let mut g = new_pool();
    assert_eq!(g.claim_reward(&s("Gamer001"), s("Gamer002")), Err(GameError::Unauthorized { invoker: s("Gamer001") }));
}

#[test]
fn create_game_needs_the_admin() {
    let mut g = new_pool();
    assert_eq!(g.create_game(&s("Gamer001"), s("Game001")), Err(GameError::Unauthorized { invoker: s("Gamer001") }));
    assert_eq!(g.query_game_details(&s("Game001")), Err(GameError::NoGameDetails));
}

#[test]
fn claimable_sums_are_checked() {
    let (mut g, pool_id) = three_team_pool(2, 10);
    assert_eq!(g.checked_claimable(&s("Gamer002"), false), Some(0));
    lock(&mut g);
    g.game_pool_reward_distribute(&s(ADMIN), s("Game001"), pool_id, results()).unwrap();
    assert_eq!(g.checked_claimable(&s("Gamer002"), false), Some(600));
    assert_eq!(g.checked_claimable(&s("Gamer001"), false), Some(0));
}

#[test]
fn a_cancel_needs_the_pool_fees_in_the_gaming_funds() {
    let mut g = new_pool();
    set_type(&mut g, "oneToTwo", 2, 10, 5);
    g.create_game(&s(ADMIN), s("Game001")).unwrap();
    let pool_id = new_pool_id(&mut g, "Game001", "oneToTwo");
    bid(&mut g, "Gamer002", "oneToTwo", &pool_id, "Team001").unwrap();
    assert!(g.end_game_ready(&s(ADMIN), &s("Game001"), false));
    // a higher pool fee set after the bid is more than the gamer's funds hold
    set_type(&mut g, "oneToTwo", 2, 10, 5);
    g.set_pool_type_params(&s(ADMIN), s("oneToTwo"), POOL_FEE + 1, 2, 10, 5, rake_list()).unwrap();
    assert!(!g.end_game_ready(&s(ADMIN), &s("Game001"), false));
    // checks that fail first leave nothing to refund
    assert!(g.end_game_ready(&s("someone"), &s("Game001"), false));
    assert!(g.end_game_ready(&s(ADMIN), &s("Game002"), false));
}

#[test]
fn bids_are_checked_for_overflow() {
    let mut g = new_pool();
    set_type(&mut g, "oneToTwo", 2, 10, 5);
    g.create_game(&s(ADMIN), s("Game001")).unwrap();
    let pool_id = new_pool_id(&mut g, "Game001", "oneToTwo");
    assert!(g.bid_ready(&s(TOKEN), &s("Gamer002"), &s("oneToTwo"), &pool_id, &s("Game001")));
    g.gaming_funds.save(s("Gamer002"), u128::MAX);
    assert!(!g.bid_ready(&s(TOKEN), &s("Gamer002"), &s("oneToTwo"), &pool_id, &s("Game001")));
    // bids not from the token contract, or on unknown pool types, are refused before any sum
    assert!(g.bid_ready(&s("someone"), &s("Gamer002"), &s("oneToTwo"), &pool_id, &s("Game001")));
    assert!(g.bid_ready(&s(TOKEN), &s("Gamer002"), &s("unknown"), &pool_id, &s("Game001")));
}

#[test]
fn distributions_are_checked_for_overflow() {
    let (mut g, pool_id) = three_team_pool(2, 10);
    lock(&mut g);
    assert!(g.distribution_ready(&s(ADMIN), &s("Game001"), &pool_id, &results()));
    let mut huge = results();
    huge[0].reward_amount = u128::MAX;
    assert!(!g.distribution_ready(&s(ADMIN), &s("Game001"), &pool_id, &huge));
    assert!(g.distribution_ready(&s("someone"), &s("Game001"), &pool_id, &huge));
    assert!(g.game_result_ready(&s("Gamer002"), &s("Game001"), &pool_id, &s("Team001")));
    g.game_pool_reward_distribute(&s(ADMIN), s("Game001"), pool_id.clone(), results()).unwrap();
    assert!(g.game_result_ready(&s("Gamer002"), &s("Game001"), &pool_id, &s("Team002")));
}

#[test]
fn a_lock_refunds_exactly_the_pools_short_of_teams() {
    let mut g = new_pool();
    set_type(&mut g, "oneToTwo", 2, 10, 5);
    set_type(&mut g, "bigPool", 5, 10, 5);
    g.create_game(&s(ADMIN), s("Game001")).unwrap();
    let full = new_pool_id(&mut g, "Game001", "oneToTwo");
    let short = new_pool_id(&mut g, "Game001", "bigPool");
    for team in ["Team001", "Team002"] {
        bid(&mut g, "Gamer002", "oneToTwo", &full, team).unwrap();
    }
    bid(&mut g, "Gamer003", "bigPool", &short, "Team003").unwrap();
    lock(&mut g);
    for t in g.query_pool_team_details(&full).unwrap() {
        assert_eq!(t.refund_amount, 0);
    }
    for t in g.query_pool_team_details(&short).unwrap() {
        assert_eq!(t.refund_amount, POOL_FEE + PLATFORM_FEE);
        assert!(!t.claimed_refund);
    }
}

#[test]
fn a_bid_is_refused_for_sender_and_game_before_the_gamer_is_looked_at() {
    let mut g = new_pool();
    assert_eq!(
        g.bid_opening_refusal(&s("stranger"), &s("Game001")),
        Some(GameError::Unauthorized { invoker: s("stranger") })
    );
    assert_eq!(g.bid_opening_refusal(&s(TOKEN), &s("Game001")), Some(GameError::GameStatusUnavailable));
    g.create_game(&s(ADMIN), s("Game001")).unwrap();
    assert_eq!(g.bid_opening_refusal(&s(TOKEN), &s("Game001")), None);
    g.lock_game(&s(ADMIN), s("Game001")).unwrap();
    assert_eq!(g.bid_opening_refusal(&s(TOKEN), &s("Game001")), Some(GameError::GameNotOpen));
}
