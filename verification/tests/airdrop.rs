use fury_contracts::airdrop::{Airdrop, AirdropError, Config, UserRewardInfo};
use fury_contracts::response::{Msg, TokenCall};

const TOKEN: &str = "cwtoken11111";

fn s(x: &str) -> String {
    x.to_string()
}

fn new_airdrop() -> Airdrop {
    Airdrop::instantiate(Config { admin_address: s("admin11111"), minting_contract_address: s(TOKEN) })
}

fn rewards(users: usize, amount: u128) -> Vec<UserRewardInfo> {
    (1..users + 1).map(|i| UserRewardInfo { user_name: format!("LunaUser_{}", i), reward_amount: amount }).collect()
}

fn check_users(a: &Airdrop, users: usize) {
    assert_eq!(a.luna_users.len(), users);
    for i in 0..a.luna_users.len() {
        let user = a.luna_users.key_at(i).clone();
        let lud = a.query_luna_user_details(&user).unwrap();
        assert_eq!(lud.luna_airdrop_qualified, true);
        assert_eq!(lud.luna_airdrop_reward_amount, 0);
    }
}

#[test]
fn test_userlist_update_activity() {
    let total_count: usize = 1000;
    let user_reward_amount: u128 = 100;
    let list = rewards(total_count, user_reward_amount);
    let total_reward = user_reward_amount * (total_count as u128);
    let mut a = new_airdrop();

    a.update_activity_reward_for_users(&s(TOKEN), s("STAKING_ACTIVITY"), rewards(total_count, 100), total_reward)
        .unwrap();
    check_users(&a, total_count);
    let all = a.query_all_user_activities();
    assert_eq!(all.len(), total_count * 4);
    for act in all.iter() {
        if act.activity_name != s("STAKING_ACTIVITY") {
            assert_eq!(act.activity_reward_amount_accrued, 0);
        } else {
            assert_eq!(act.activity_reward_amount_accrued, 100);
        }
    }

    a.update_activity_reward_for_users(&s(TOKEN), s("LUNA_ACTIVITY"), list, total_reward).unwrap();
    check_users(&a, total_count);
    let all = a.query_all_user_activities();
    assert_eq!(all.len(), total_count * 4);
    for act in all.iter() {
        if act.activity_name == s("STAKING_ACTIVITY") || act.activity_name == s("LUNA_ACTIVITY") {
            assert_eq!(act.activity_reward_amount_accrued, 100);
        } else {
            assert_eq!(act.activity_reward_amount_accrued, 0);
        }
    }

    let rsp = a.claim_user_rewards(&s("LunaUser_1"), s("LunaUser_1")).unwrap();
    assert_eq!(rsp.attributes[0].value.clone(), "200");
}

#[test]
fn rewards_must_add_up_to_the_tokens_sent() {
    let mut a = new_airdrop();
    let r = a.update_activity_reward_for_users(&s(TOKEN), s("STAKING_ACTIVITY"), rewards(3, 100), 299);
    assert_eq!(r, Err(AirdropError::RewardTotalMismatch));
    assert_eq!(a.luna_users.len(), 0);
    assert!(a.query_all_user_activities().is_empty());
}

#[test]
fn only_the_token_contract_books_rewards() {
    let mut a = new_airdrop();
    let r = a.update_activity_reward_for_users(&s("admin11111"), s("STAKING_ACTIVITY"), rewards(3, 100), 300);
    assert_eq!(r, Err(AirdropError::Unauthorized));
    assert_eq!(a.query_luna_user_details(&s("LunaUser_1")), Err(AirdropError::NoLunaUserDetails));
}

#[test]
fn a_user_claims_once_and_only_for_themselves() {
    let mut a = new_airdrop();
    a.update_activity_reward_for_users(&s(TOKEN), s("GAMING_ACTIVITY"), rewards(2, 70), 140).unwrap();
    a.update_activity_reward_for_users(&s(TOKEN), s("GAMING_ACTIVITY"), rewards(1, 5), 5).unwrap();
    assert_eq!(a.claim_user_rewards(&s("LunaUser_2"), s("LunaUser_1")), Err(AirdropError::Unauthorized));
    assert_eq!(a.query_user_rewards(&s("LunaUser_1")), 75);
    let rsp = a.claim_user_rewards(&s("LunaUser_1"), s("LunaUser_1")).unwrap();
    assert_eq!(
        rsp.messages,
        vec![Msg::Token { contract: s(TOKEN), call: TokenCall::Transfer { recipient: s("LunaUser_1"), amount: 75 } }]
    );
    assert_eq!(rsp.attributes[1].value.clone(), "reward");
    assert_eq!(rsp.data, Some(s("Amount 75 transferred")));
    assert_eq!(a.query_user_rewards(&s("LunaUser_1")), 0);
    assert_eq!(a.claim_user_rewards(&s("LunaUser_1"), s("LunaUser_1")), Err(AirdropError::NoRewardForUser));
    assert_eq!(a.query_user_rewards(&s("LunaUser_2")), 70);
}

#[test]
fn a_new_user_gets_the_four_activities() {
    let mut a = new_airdrop();
    a.update_activity_reward_for_users(&s(TOKEN), s("LIQUIDITY_ACTIVITY"), rewards(1, 9), 9).unwrap();
    let acts = a.query_airdrop_activity_details(&s("LunaUser_1")).unwrap();
    let names: Vec<String> = acts.iter().map(|x| x.activity_name.clone()).collect();
    assert_eq!(names, vec![s("LUNA_ACTIVITY"), s("GAMING_ACTIVITY"), s("STAKING_ACTIVITY"), s("LIQUIDITY_ACTIVITY")]);
    assert_eq!(acts.iter().map(|x| x.activity_reward_amount_accrued).sum::<u128>(), 9);
    assert_eq!(a.query_airdrop_activity_details(&s("nobody")), Err(AirdropError::NoActivityDetails));
}

#[test]
fn booked_tokens_are_claimable_in_full() {
    let mut a = new_airdrop();
    a.update_activity_reward_for_users(&s(TOKEN), s("GAMING_ACTIVITY"), rewards(3, 100), 300).unwrap();
    a.update_activity_reward_for_users(&s(TOKEN), s("STAKING_ACTIVITY"), rewards(2, 25), 50).unwrap();
    let claimable = |a: &Airdrop| -> u128 { (1..4).map(|i| a.query_user_rewards(&format!("LunaUser_{}", i))).sum() };
    assert_eq!(claimable(&a), 350);
    let rsp = a.claim_user_rewards(&s("LunaUser_2"), s("LunaUser_2")).unwrap();
    assert_eq!(rsp.attributes[0].value.clone(), "125");
    assert_eq!(claimable(&a), 225);
}

#[test]
fn bookings_are_checked_for_overflow() {
    let mut a = new_airdrop();
    let activity = s("GAMING_ACTIVITY");
    assert!(a.booking_ready(&s(TOKEN), &activity, &rewards(3, 100)));
    // the rewards of a list that cannot be summed
    assert!(!a.booking_ready(&s(TOKEN), &activity, &rewards(2, u128::MAX)));
    // only the token contract's bookings are computed
    assert!(a.booking_ready(&s("someone"), &activity, &rewards(2, u128::MAX)));
    a.update_activity_reward_for_users(&s(TOKEN), activity.clone(), rewards(1, u128::MAX - 5), u128::MAX - 5).unwrap();
    // the first user's accrued reward cannot take six more
    assert!(!a.booking_ready(&s(TOKEN), &activity, &rewards(1, 6)));
    assert!(a.booking_ready(&s(TOKEN), &activity, &rewards(1, 5)));
    // another activity of the same user still has room
    assert!(a.booking_ready(&s(TOKEN), &s("LUNA_ACTIVITY"), &rewards(1, 6)));
    assert!(a.rewards_summable(&s("LunaUser_1")));
    a.update_activity_reward_for_users(&s(TOKEN), s("LUNA_ACTIVITY"), rewards(1, 6), 6).unwrap();
    assert!(!a.rewards_summable(&s("LunaUser_1")));
    assert!(a.rewards_summable(&s("nobody")));
}
