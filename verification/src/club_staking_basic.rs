//! The first club staking contract: clubs are bought once and for all,
//! stakes are recorded with their duration, and the contract's wallet keeps
//! what each address paid in.
use vstd::prelude::*;
use crate::amounts::{checked_mul_or_zero, mul_or_zero};
use crate::club_staking_rewards::{rank_desc, rank_entries};
use crate::response::Response;
use crate::table::{Table, has_key, lookup, saved};

verus! {

/// What a club costs.
pub const CLUB_PRICE: u128 = 1000000000;

/// How long an owner holds a club before releasing it: 21 days, in seconds.
pub const LOCKING_PERIOD: u64 = 1814400;

#[derive(Debug, PartialEq, Eq)]
pub struct Config {
    pub cw20_token_address: String,
    pub admin_address: String,
}

#[derive(Debug, PartialEq, Eq)]
pub struct ClubOwnershipDetails {
    pub club_name: String,
    pub start_timestamp: u64,
    pub locking_period: u64,
    pub owner_address: String,
    pub price_paid: u128,
}

#[derive(Debug, PartialEq, Eq)]
pub struct ClubStakingDetails {
    pub staker_address: String,
    pub staking_start_timestamp: u64,
    pub staked_amount: u128,
    pub staking_duration: u64,
    pub club_name: String,
}

impl View for ClubOwnershipDetails {
    type V = ClubOwnershipDetails;

    open spec fn view(&self) -> ClubOwnershipDetails {
        *self
    }
}

impl View for ClubStakingDetails {
    type V = ClubStakingDetails;

    open spec fn view(&self) -> ClubStakingDetails {
        *self
    }
}

#[derive(Debug, PartialEq, Eq)]
pub enum BasicClubError {
    Unauthorized,
    /// "Cant have more than one owner for a club"
    ClubAlreadyOwned,
    /// "The club is not available for staking"
    ClubNotAvailable,
    /// "No staking details found"
    NoStakingDetails,
    /// "No ownership details found"
    NoOwnershipDetails,
}

/// The contract's storage.
pub struct BasicClubStaking {
    pub config: Config,
    pub ownerships: Table<ClubOwnershipDetails>,
    pub stakes: Table<Vec<ClubStakingDetails>>,
    /// What each address paid into the contract.
    pub contract_wallet: Table<u128>,
    pub reward: u128,
}

/// The amount an address has paid in, 0 if none.
pub open spec fn paid_in(t: Seq<(Seq<char>, u128)>, who: Seq<char>) -> u128 {
    match lookup(t, who) {
        Some(b) => b,
        None => 0,
    }
}

/// The stake list of a club, or none.
pub open spec fn stakes_of(t: Seq<(Seq<char>, Seq<ClubStakingDetails>)>, club: Seq<char>) -> Seq<ClubStakingDetails> {
    match lookup(t, club) {
        Some(l) => l,
        None => Seq::empty(),
    }
}

/// The staked total of a stake list.
pub open spec fn staked_total(l: Seq<ClubStakingDetails>) -> nat
    decreases l.len(),
{
    if l.len() == 0 {
        0
    } else {
        staked_total(l.drop_last()) + l.last().staked_amount as nat
    }
}

pub proof fn lemma_staked_total_prefix(l: Seq<ClubStakingDetails>, j: int)
    requires
        0 <= j <= l.len(),
    ensures
        staked_total(l.take(j)) <= staked_total(l),
    decreases l.len(),
{
    if j < l.len() {
        assert(l.drop_last().take(j) =~= l.take(j));
        lemma_staked_total_prefix(l.drop_last(), j);
    } else {
        assert(l.take(j) =~= l);
    }
}

/// Each club's stake list is non-empty and its total fits an amount.
pub open spec fn rankable(t: Seq<(Seq<char>, Seq<ClubStakingDetails>)>) -> bool {
    forall|i: int| #![auto] 0 <= i < t.len() ==> t[i].1.len() > 0 && staked_total(t[i].1) <= u128::MAX
}

/// The clubs' ranking entries in key order: each club named by its first
/// stake, with the staked total.
pub open spec fn club_totals(t: Seq<(Seq<char>, Seq<ClubStakingDetails>)>) -> Seq<(String, u128)> {
    t.map_values(|e: (Seq<char>, Seq<ClubStakingDetails>)| (e.1[0].club_name, staked_total(e.1) as u128))
}

/// All stakes, club by club in key order.
pub open spec fn all_stakes(t: Seq<(Seq<char>, Seq<ClubStakingDetails>)>) -> Seq<ClubStakingDetails>
    decreases t.len(),
{
    if t.len() == 0 {
        Seq::empty()
    } else {
        all_stakes(t.drop_last()) + t.last().1
    }
}

/// The winner's and the others' shares of a reward: 20% and 80% (none where that overflows).
pub open spec fn share_20_80(amount: u128) -> (u128, u128) {
    ((mul_or_zero(amount, 20) / 100) as u128, (mul_or_zero(amount, 80) / 100) as u128)
}

/// Splits a reward 20/80 between the winner and the others.
pub fn calculate_20_80_share(amount: u128) -> (r: (u128, u128))
    ensures
        r == share_20_80(amount),
{
    let winner_share = checked_mul_or_zero(amount, 20) / 100;
    let other_share = checked_mul_or_zero(amount, 80) / 100;
    (winner_share, other_share)
}

pub fn clone_ownership(o: &ClubOwnershipDetails) -> (r: ClubOwnershipDetails)
    ensures
        r == *o,
{
    ClubOwnershipDetails {
        club_name: o.club_name.clone(),
        start_timestamp: o.start_timestamp,
        locking_period: o.locking_period,
        owner_address: o.owner_address.clone(),
        price_paid: o.price_paid,
    }
}

pub fn clone_stake(s: &ClubStakingDetails) -> (r: ClubStakingDetails)
    ensures
        r == *s,
{
    ClubStakingDetails {
        staker_address: s.staker_address.clone(),
        staking_start_timestamp: s.staking_start_timestamp,
        staked_amount: s.staked_amount,
        staking_duration: s.staking_duration,
        club_name: s.club_name.clone(),
    }
}

pub fn clone_stakes(l: &Vec<ClubStakingDetails>) -> (r: Vec<ClubStakingDetails>)
    ensures
        r@ == l@,
{
    let mut r: Vec<ClubStakingDetails> = Vec::new();
    let mut i: usize = 0;
    while i < l.len()
        invariant
            i <= l@.len(),
            r@ == l@.take(i as int),
        decreases l@.len() - i,
    {
        r.push(clone_stake(&l[i]));
        assert(r@ =~= l@.take(i + 1));
        i = i + 1;
    }
    assert(l@.take(l@.len() as int) =~= l@);
    r
}

fn stake_sum(l: &Vec<ClubStakingDetails>) -> (r: u128)
    requires
        staked_total(l@) <= u128::MAX,
    ensures
        r == staked_total(l@),
{
    let mut sum: u128 = 0;
    let mut j: usize = 0;
    while j < l.len()
        invariant
            j <= l@.len(),
            staked_total(l@) <= u128::MAX,
            sum == staked_total(l@.take(j as int)),
        decreases l@.len() - j,
    {
        proof {
            assert(l@.take(j + 1).drop_last() =~= l@.take(j as int));
            lemma_staked_total_prefix(l@, j + 1);
        }
        sum = sum + l[j].staked_amount;
        j = j + 1;
    }
    assert(l@.take(l@.len() as int) =~= l@);
    sum
}

impl BasicClubStaking {
    pub open spec fn wf(&self) -> bool {
        &&& self.ownerships.wf()
        &&& self.stakes.wf()
        &&& self.contract_wallet.wf()
    }

    pub fn instantiate(config: Config) -> (s: Self)
        ensures
            s.wf(),
            s.config == config,
            s.ownerships@.len() == 0,
            s.stakes@.len() == 0,
            s.contract_wallet@.len() == 0,
            s.reward == 0,
    {
        BasicClubStaking {
            config,
            ownerships: Table::new(),
            stakes: Table::new(),
            contract_wallet: Table::new(),
            reward: 0,
        }
    }

    /// The buyer buys a club no one owns; the price joins what the buyer paid in.
    pub fn buy_a_club(&mut self, sender: &String, buyer: String, club_name: String, price: u128, now: u64) -> (r: Result<
        Response,
        BasicClubError,
    >)
        requires
            old(self).wf(),
            buyer@ == sender@ && !has_key(old(self).ownerships@, club_name@) ==> paid_in(
                old(self).contract_wallet@,
                buyer@,
            ) + price <= u128::MAX,
        ensures
            final(self).wf(),
            buyer@ != sender@ ==> r == Err::<Response, BasicClubError>(BasicClubError::Unauthorized) && *final(self)
                == *old(self),
            buyer@ == sender@ && has_key(old(self).ownerships@, club_name@) ==> r == Err::<Response, BasicClubError>(
                BasicClubError::ClubAlreadyOwned,
            ) && *final(self) == *old(self),
            buyer@ == sender@ && !has_key(old(self).ownerships@, club_name@) ==> ({
                &&& r matches Ok(resp) && resp.messages@.len() == 0 && resp.attrs().len() == 0 && resp.data.is_none()
                &&& final(self).ownerships@ == saved(
                    old(self).ownerships@,
                    club_name@,
                    ClubOwnershipDetails {
                        club_name,
                        start_timestamp: now,
                        locking_period: LOCKING_PERIOD,
                        owner_address: buyer,
                        price_paid: price,
                    },
                )
                &&& final(self).contract_wallet@ == saved(
                    old(self).contract_wallet@,
                    buyer@,
                    (paid_in(old(self).contract_wallet@, buyer@) + price) as u128,
                )
                &&& final(self).config == old(self).config
                &&& final(self).stakes == old(self).stakes
                &&& final(self).reward == old(self).reward
            }),
    {
        if !buyer.eq(sender) {
            return Err(BasicClubError::Unauthorized);
        }
        if self.ownerships.contains(&club_name) {
            return Err(BasicClubError::ClubAlreadyOwned);
        }
        self.ownerships.save(
            club_name.clone(),
            ClubOwnershipDetails {
                club_name,
                start_timestamp: now,
                locking_period: LOCKING_PERIOD,
                owner_address: buyer.clone(),
                price_paid: price,
            },
        );
        let have = match self.contract_wallet.get(&buyer) {
            Some(b) => *b,
            None => 0,
        };
        self.contract_wallet.save(buyer, have + price);
        Ok(Response::empty())
    }

    /// The staker stakes `amount` on an owned club for `duration`; the amount
    /// joins what the staker paid in.
    pub fn stake_on_a_club(
        &mut self,
        sender: &String,
        staker: String,
        club_name: String,
        amount: u128,
        duration: u64,
        now: u64,
    ) -> (r: Result<Response, BasicClubError>)
        requires
            old(self).wf(),
            staker@ == sender@ && has_key(old(self).ownerships@, club_name@) ==> paid_in(
                old(self).contract_wallet@,
                staker@,
            ) + amount <= u128::MAX,
        ensures
            final(self).wf(),
            staker@ != sender@ ==> r == Err::<Response, BasicClubError>(BasicClubError::Unauthorized) && *final(self)
                == *old(self),
            staker@ == sender@ && !has_key(old(self).ownerships@, club_name@) ==> r == Err::<Response, BasicClubError>(
                BasicClubError::ClubNotAvailable,
            ) && *final(self) == *old(self),
            staker@ == sender@ && has_key(old(self).ownerships@, club_name@) ==> ({
                &&& r matches Ok(resp) && resp.messages@.len() == 0 && resp.attrs().len() == 0 && resp.data.is_none()
                &&& final(self).stakes@ == saved(
                    old(self).stakes@,
                    club_name@,
                    stakes_of(old(self).stakes@, club_name@).push(
                        ClubStakingDetails {
                            staker_address: staker,
                            staking_start_timestamp: now,
                            staked_amount: amount,
                            staking_duration: duration,
                            club_name,
                        },
                    ),
                )
                &&& final(self).contract_wallet@ == saved(
                    old(self).contract_wallet@,
                    staker@,
                    (paid_in(old(self).contract_wallet@, staker@) + amount) as u128,
                )
                &&& final(self).config == old(self).config
                &&& final(self).ownerships == old(self).ownerships
                &&& final(self).reward == old(self).reward
            }),
    {
        if !staker.eq(sender) {
            return Err(BasicClubError::Unauthorized);
        }
        if !self.ownerships.contains(&club_name) {
            return Err(BasicClubError::ClubNotAvailable);
        }
        let mut l = match self.stakes.get(&club_name) {
            Some(l) => clone_stakes(l),
            None => Vec::new(),
        };
        assert(l@ =~= stakes_of(self.stakes@, club_name@));
        l.push(
            ClubStakingDetails {
                staker_address: staker.clone(),
                staking_start_timestamp: now,
                staked_amount: amount,
                staking_duration: duration,
                club_name: club_name.clone(),
            },
        );
        self.stakes.save(club_name, l);
        let have = match self.contract_wallet.get(&staker) {
            Some(b) => *b,
            None => 0,
        };
        self.contract_wallet.save(staker, have + amount);
        Ok(Response::empty())
    }

    /// Sets the reward; refused to the token contract.
    pub fn set_reward_amount(&mut self, sender: &String, amount: u128) -> (r: Result<Response, BasicClubError>)
        ensures
            old(self).config.cw20_token_address@ == sender@ ==> r == Err::<Response, BasicClubError>(
                BasicClubError::Unauthorized,
            ) && *final(self) == *old(self),
            old(self).config.cw20_token_address@ != sender@ ==> (r matches Ok(resp) && resp.messages@.len() == 0
                && resp.attrs().len() == 0 && resp.data.is_none() && *final(self) == (BasicClubStaking {
                reward: amount,
                ..*old(self)
            })),
    {
        if self.config.cw20_token_address.eq(sender) {
            return Err(BasicClubError::Unauthorized);
        }
        self.reward = amount;
        Ok(Response::empty())
    }

    /// Refused to the token contract; splits the reward 20/80 and changes nothing.
    pub fn calculate_and_distribute_rewards(&self, sender: &String) -> (r: Result<Response, BasicClubError>)
        ensures
            self.config.cw20_token_address@ == sender@ ==> r == Err::<Response, BasicClubError>(
                BasicClubError::Unauthorized,
            ),
            self.config.cw20_token_address@ != sender@ ==> (r matches Ok(resp) && resp.messages@.len() == 0
                && resp.attrs().len() == 0 && resp.data.is_none()),
    {
        if self.config.cw20_token_address.eq(sender) {
            return Err(BasicClubError::Unauthorized);
        }
        if self.reward > 0 {
            let _shares = calculate_20_80_share(self.reward);
        }
        Ok(Response::empty())
    }

    /// The stakes on a club.
    pub fn query_club_staking_details(&self, club_name: &String) -> (r: Result<Vec<ClubStakingDetails>, BasicClubError>)
        requires
            self.wf(),
        ensures
            match lookup(self.stakes@, club_name@) {
                Some(l) => r matches Ok(v) && v@ == l,
                None => r == Err::<Vec<ClubStakingDetails>, BasicClubError>(BasicClubError::NoStakingDetails),
            },
    {
        match self.stakes.get(club_name) {
            Some(l) => Ok(clone_stakes(l)),
            None => Err(BasicClubError::NoStakingDetails),
        }
    }

    /// All stakes, club by club in key order.
    pub fn query_all_stakes(&self) -> (r: Vec<ClubStakingDetails>)
        ensures
            r@ == all_stakes(self.stakes@),
    {
        let mut r: Vec<ClubStakingDetails> = Vec::new();
        let mut i: usize = 0;
        while i < self.stakes.len()
            invariant
                i <= self.stakes@.len(),
                r@ == all_stakes(self.stakes@.take(i as int)),
            decreases self.stakes@.len() - i,
        {
            let l = self.stakes.val_at(i);
            let ghost r0 = r@;
            let mut j: usize = 0;
            while j < l.len()
                invariant
                    j <= l@.len(),
                    r@ == r0 + l@.take(j as int),
                decreases l@.len() - j,
            {
                r.push(clone_stake(&l[j]));
                assert(r@ =~= r0 + l@.take(j + 1));
                j = j + 1;
            }
            assert(l@.take(l@.len() as int) =~= l@);
            assert(self.stakes@.take(i + 1).drop_last() =~= self.stakes@.take(i as int));
            i = i + 1;
        }
        assert(self.stakes@.take(self.stakes@.len() as int) =~= self.stakes@);
        r
    }

    /// Whether each club's stake list can be ranked, as the ranking needs.
    pub fn stakes_rankable(&self) -> (r: bool)
        ensures
            r == rankable(self.stakes@),
    {
        let t = &self.stakes;
        let mut i: usize = 0;
        while i < t.len()
            invariant
                i <= t@.len(),
                t@ == self.stakes@,
                forall|k: int| #![auto] 0 <= k < i ==> t@[k].1.len() > 0 && staked_total(t@[k].1) <= u128::MAX,
            decreases t@.len() - i,
        {
            let l = t.val_at(i);
            if l.len() == 0 {
                assert(t@[i as int].1.len() == 0);
                return false;
            }
            let mut sum: u128 = 0;
            let mut j: usize = 0;
            while j < l.len()
                invariant
                    j <= l@.len(),
                    i < t@.len(),
                    l@ == t@[i as int].1,
                    t@ == self.stakes@,
                    sum == staked_total(l@.take(j as int)),
                decreases l@.len() - j,
            {
                proof {
                    assert(l@.take(j + 1).drop_last() =~= l@.take(j as int));
                    lemma_staked_total_prefix(l@, j + 1);
                }
                match sum.checked_add(l[j].staked_amount) {
                    Some(x) => {
                        sum = x;
                    },
                    None => {
                        assert(staked_total(t@[i as int].1) > u128::MAX);
                        return false;
                    },
                }
                j = j + 1;
            }
            assert(l@.take(l@.len() as int) =~= l@);
            i = i + 1;
        }
        true
    }

    /// The clubs with their staked totals, ranked by descending total.
    pub fn get_clubs_ranking_by_stakes(&self) -> (r: Vec<(String, u128)>)
        requires
            rankable(self.stakes@),
        ensures
            r@ == rank_desc(club_totals(self.stakes@)),
    {
        let mut entries: Vec<(String, u128)> = Vec::new();
        let mut i: usize = 0;
        while i < self.stakes.len()
            invariant
                i <= self.stakes@.len(),
                rankable(self.stakes@),
                entries@ == club_totals(self.stakes@).take(i as int),
            decreases self.stakes@.len() - i,
        {
            let l = self.stakes.val_at(i);
            let sum = stake_sum(l);
            entries.push((l[0].club_name.clone(), sum));
            assert(entries@ =~= club_totals(self.stakes@).take(i + 1));
            i = i + 1;
        }
        assert(entries@ =~= club_totals(self.stakes@));
        rank_entries(&entries)
    }

    /// The reward to hand out.
    pub fn query_reward_amount(&self) -> (r: u128)
        ensures
            r == self.reward,
    {
        self.reward
    }

    /// The ownership of a club.
    pub fn query_club_ownership_details(&self, club_name: &String) -> (r: Result<ClubOwnershipDetails, BasicClubError>)
        requires
            self.wf(),
        ensures
            match lookup(self.ownerships@, club_name@) {
                Some(o) => r == Ok::<ClubOwnershipDetails, BasicClubError>(o),
                None => r == Err::<ClubOwnershipDetails, BasicClubError>(BasicClubError::NoOwnershipDetails),
            },
    {
        match self.ownerships.get(club_name) {
            Some(o) => Ok(clone_ownership(o)),
            None => Err(BasicClubError::NoOwnershipDetails),
        }
    }
}

/// The command carried by tokens sent to the contract: buy a club.
pub struct BuyClubCommand {
    pub buyer: String,
    pub seller: String,
    pub club_name: String,
}

/// The command carried by tokens sent to the contract: stake on a club.
pub struct StakeOnAClubCommand {
    pub staker: String,
    pub club_name: String,
}

/// The command carried by tokens sent to the contract: add them to the reward.
pub struct IncreaseRewardAmountCommand {
    pub reward_from: String,
}

/// What tokens sent to the contract are for.
pub enum ReceivedMsg {
    BuyAClub(BuyClubCommand),
    StakeOnAClub(StakeOnAClubCommand),
    IncreaseRewardAmount(IncreaseRewardAmountCommand),
}

} // verus!
