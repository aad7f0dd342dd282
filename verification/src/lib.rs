//! Verified models of a set of token contracts: a staking club market,
//! a gaming pool, a vesting token, an activity airdrop and a distributor.
pub mod airdrop;
pub mod airdrop_laws;
pub mod amounts;
pub mod club_staking;
pub mod club_staking_basic;
pub mod club_staking_laws;
pub mod club_staking_queries;
pub mod club_staking_rewards;
pub mod club_staking_withdraw;
pub mod distribute;
pub mod gaming_pool;
pub mod gaming_pool_laws;
pub mod logo;
pub mod response;
pub mod table;
pub mod token;
pub mod token_laws;
pub mod token_marketing;
pub mod token_setup;
pub mod vesting;
pub mod vesting_ops;
