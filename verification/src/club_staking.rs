//! Club staking: clubs are bought and released by owners, stakers stake on
//! clubs and withdraw (at once, or after a bonding period), and a periodic
//! reward is split between the stakers and the owner of the top club.
use vstd::prelude::*;
use vstd::string::StringExecFns;
use crate::response::{Coin, Msg, Response, TokenCall, decimal, decimal_text, payout, payout_response};
use crate::table::{Table, has_key, lookup, removed, saved, sorted_keys};

verus! {

pub const NANOS_PER_SECOND: u64 = 1_000_000_000;

/// Percentages are given in hundredths of a percent: 10000 is 100%.
pub const HUNDRED_PERCENT: u128 = 10000;

#[derive(Debug, PartialEq, Eq)]
pub struct Config {
    pub admin_address: String,
    pub minting_contract_address: String,
    pub astro_proxy_address: String,
    pub club_fee_collector_wallet: String,
    /// Nanoseconds since the epoch.
    pub club_reward_next_timestamp: u64,
    pub reward_periodicity: u64,
    pub club_price: u128,
    pub bonding_duration: u64,
    pub platform_fees_collector_wallet: String,
    pub platform_fees: u128,
    pub transaction_fees: u128,
    pub control_fees: u128,
}

#[derive(Debug, PartialEq, Eq)]
pub struct ClubOwnershipDetails {
    pub club_name: String,
    pub start_timestamp: u64,
    pub locking_period: u64,
    pub owner_address: String,
    pub price_paid: u128,
    pub reward_amount: u128,
    pub owner_released: bool,
}

#[derive(Debug, PartialEq, Eq)]
pub struct ClubPreviousOwnerDetails {
    pub previous_owner_address: String,
    pub reward_amount: u128,
}

#[derive(Debug, PartialEq, Eq)]
pub struct ClubStakingDetails {
    pub staker_address: String,
    pub staking_start_timestamp: u64,
    pub staked_amount: u128,
    pub staking_duration: u64,
    pub club_name: String,
    pub reward_amount: u128,
}

#[derive(Debug, PartialEq, Eq)]
pub struct ClubBondingDetails {
    pub bonder_address: String,
    pub bonding_start_timestamp: u64,
    pub bonded_amount: u128,
    pub bonding_duration: u64,
    pub club_name: String,
}

impl View for ClubOwnershipDetails {
    type V = ClubOwnershipDetails;

    open spec fn view(&self) -> ClubOwnershipDetails {
        *self
    }
}

impl View for ClubPreviousOwnerDetails {
    type V = ClubPreviousOwnerDetails;

    open spec fn view(&self) -> ClubPreviousOwnerDetails {
        *self
    }
}

impl View for ClubStakingDetails {
    type V = ClubStakingDetails;

    open spec fn view(&self) -> ClubStakingDetails {
        *self
    }
}

impl View for ClubBondingDetails {
    type V = ClubBondingDetails;

    open spec fn view(&self) -> ClubBondingDetails {
        *self
    }
}

#[derive(Debug, PartialEq, Eq)]
pub enum ClubError {
    Unauthorized,
    /// "not authorised"
    NotAuthorised,
    /// "No rewards for this previous owner"
    NoRewardsForPreviousOwner,
    /// "Not a valid previous owner for the club"
    NotValidPreviousOwner,
    /// "No rewards for this owner"
    NoRewardsForOwner,
    /// "Not a valid owner for the club"
    NotValidOwner,
    /// "Club price is not matching"
    ClubPriceMismatch,
    InsufficientFees { required: u128, received: u128 },
    /// "buyer already owns this club"
    BuyerAlreadyOwns,
    /// "Owner has not released the club"
    OwnerNotReleased,
    /// "Seller is not the owner for the club"
    SellerNotOwner,
    /// "Releaser is not the owner for the club"
    ReleaserNotOwner,
    /// "Locking period for the club is not over"
    LockingPeriodNotOver,
    /// "The club is not available for staking"
    ClubNotAvailable,
    /// "Invalid club"
    InvalidClub,
    /// "Excess amount demaded for withdrawal"
    ExcessWithdrawal,
    /// "Not a valid staker for the club"
    NotValidStaker,
    /// "No rewards for this user"
    NoRewardsForUser,
    /// "Time for Reward not yet arrived"
    RewardTimeNotArrived,
    /// "No staking details found"
    NoStakingDetails,
    /// "No bonding details found"
    NoBondingDetails,
    /// "No ownership details found"
    NoOwnershipDetails,
    /// "No previous ownership details found"
    NoPreviousOwnershipDetails,
    /// The exchange rate query of the price pool failed.
    PoolQueryFailed,
    /// A fee computation overflowed.
    FeeOverflow,
    /// A fee computation divided by zero.
    FeeDivideByZero,
}

/// The contract's storage after instantiation.
pub struct ClubStaking {
    pub config: Config,
    pub club_reward_next_timestamp: u64,
    pub reward: u128,
    pub ownerships: Table<ClubOwnershipDetails>,
    pub previous_owners: Table<ClubPreviousOwnerDetails>,
    pub stakes: Table<Vec<ClubStakingDetails>>,
    pub bonds: Table<Vec<ClubBondingDetails>>,
    pub staking_funds: Table<u128>,
}

pub fn clone_ownership(o: &ClubOwnershipDetails) -> (r: ClubOwnershipDetails)
    ensures
        r == *o,
{
    ClubOwnershipDetails {
        club_name: o.club_name.clone(),
        start_timestamp: o.start_timestamp,
        locking_period: o.locking_period,
        owner_address: o.owner_address.clone(),
        price_paid: o.price_paid,
        reward_amount: o.reward_amount,
        owner_released: o.owner_released,
    }
}

pub fn clone_previous(o: &ClubPreviousOwnerDetails) -> (r: ClubPreviousOwnerDetails)
    ensures
        r == *o,
{
    ClubPreviousOwnerDetails { previous_owner_address: o.previous_owner_address.clone(), reward_amount: o.reward_amount }
}

pub fn clone_stake(s: &ClubStakingDetails) -> (r: ClubStakingDetails)
    ensures
        r == *s,
{
    ClubStakingDetails {
        staker_address: s.staker_address.clone(),
        staking_start_timestamp: s.staking_start_timestamp,
        staked_amount: s.staked_amount,
        staking_duration: s.staking_duration,
        club_name: s.club_name.clone(),
        reward_amount: s.reward_amount,
    }
}

pub fn clone_bond(b: &ClubBondingDetails) -> (r: ClubBondingDetails)
    ensures
        r == *b,
{
    ClubBondingDetails {
        bonder_address: b.bonder_address.clone(),
        bonding_start_timestamp: b.bonding_start_timestamp,
        bonded_amount: b.bonded_amount,
        bonding_duration: b.bonding_duration,
        club_name: b.club_name.clone(),
    }
}

pub fn clone_stakes(l: &Vec<ClubStakingDetails>) -> (r: Vec<ClubStakingDetails>)
    ensures
        r@ == l@,
{
    let mut r: Vec<ClubStakingDetails> = Vec::new();
    let mut i: usize = 0;
    while i < l.len()
        invariant
            i <= l@.len(),
            r@ == l@.take(i as int),
        decreases l@.len() - i,
    {
        r.push(clone_stake(&l[i]));
        assert(l@.take(i + 1) =~= l@.take(i as int).push(l@[i as int]));
        i = i + 1;
    }
    assert(l@.take(l@.len() as int) =~= l@);
    r
}

pub fn clone_bonds(l: &Vec<ClubBondingDetails>) -> (r: Vec<ClubBondingDetails>)
    ensures
        r@ == l@,
{
    let mut r: Vec<ClubBondingDetails> = Vec::new();
    let mut i: usize = 0;
    while i < l.len()
        invariant
            i <= l@.len(),
            r@ == l@.take(i as int),
        decreases l@.len() - i,
    {
        r.push(clone_bond(&l[i]));
        assert(l@.take(i + 1) =~= l@.take(i as int).push(l@[i as int]));
        i = i + 1;
    }
    assert(l@.take(l@.len() as int) =~= l@);
    r
}

/// `ts` moved back by `secs` seconds; defined where that stays at or after the epoch.
pub open spec fn minus_seconds_ok(ts: u64, secs: u64) -> bool {
    secs * NANOS_PER_SECOND <= ts
}

pub open spec fn minus_seconds_spec(ts: u64, secs: u64) -> u64 {
    (ts - secs * NANOS_PER_SECOND) as u64
}

pub fn minus_seconds(ts: u64, secs: u64) -> (r: u64)
    requires
        minus_seconds_ok(ts, secs),
    ensures
        r == minus_seconds_spec(ts, secs),
{
    assert(secs * NANOS_PER_SECOND <= u64::MAX);
    ts - secs * NANOS_PER_SECOND
}

/// Whether `ts` can be moved back by `secs` seconds.
pub fn can_subtract_seconds(ts: u64, secs: u64) -> (r: bool)
    ensures
        r == minus_seconds_ok(ts, secs),
{
    match secs.checked_mul(1_000_000_000) {
        Some(n) => n <= ts,
        None => false,
    }
}

pub open spec fn plus_seconds_ok(ts: u64, secs: u64) -> bool {
    ts + secs * NANOS_PER_SECOND <= u64::MAX
}

pub fn plus_seconds(ts: u64, secs: u64) -> (r: u64)
    requires
        plus_seconds_ok(ts, secs),
    ensures
        r == ts + secs * NANOS_PER_SECOND,
{
    assert(secs * NANOS_PER_SECOND <= u64::MAX) by (nonlinear_arith)
        requires
            ts + secs * NANOS_PER_SECOND <= u64::MAX,
    ;
    ts + secs * NANOS_PER_SECOND
}

/// The stake list of a club, or none.
pub open spec fn stakes_of(s: Seq<(Seq<char>, Seq<ClubStakingDetails>)>, club: Seq<char>) -> Seq<ClubStakingDetails> {
    match lookup(s, club) {
        Some(l) => l,
        None => Seq::empty(),
    }
}

/// The bond list of a club, or none.
pub open spec fn bonds_of(s: Seq<(Seq<char>, Seq<ClubBondingDetails>)>, club: Seq<char>) -> Seq<ClubBondingDetails> {
    match lookup(s, club) {
        Some(l) => l,
        None => Seq::empty(),
    }
}

/// The balance stored for a wallet, 0 if none.
pub open spec fn funds_of(s: Seq<(Seq<char>, u128)>, who: Seq<char>) -> u128 {
    match lookup(s, who) {
        Some(b) => b,
        None => 0,
    }
}

impl ClubStaking {
    pub open spec fn wf(&self) -> bool {
        &&& self.ownerships.wf()
        &&& self.previous_owners.wf()
        &&& self.stakes.wf()
        &&& self.bonds.wf()
        &&& self.staking_funds.wf()
    }

    pub open spec fn is_admin(&self, sender: Seq<char>) -> bool {
        self.config.admin_address@ == sender
    }

    /// The first reward time: the configured one, or one second before now where none is configured.
    pub open spec fn first_reward_time(configured: u64, now: u64) -> u64 {
        if configured / NANOS_PER_SECOND == 0 {
            minus_seconds_spec(now, 1)
        } else {
            configured
        }
    }

    /// Sets up the contract; `config.club_reward_next_timestamp` is replaced by the first reward time.
    pub fn instantiate(config: Config, now: u64) -> (s: Self)
        requires
            config.club_reward_next_timestamp / NANOS_PER_SECOND == 0 ==> minus_seconds_ok(now, 1),
        ensures
            s.wf(),
            s.config == (Config {
                club_reward_next_timestamp: Self::first_reward_time(config.club_reward_next_timestamp, now),
                ..config
            }),
            s.club_reward_next_timestamp == Self::first_reward_time(config.club_reward_next_timestamp, now),
            s.reward == 0,
            s.ownerships@.len() == 0,
            s.previous_owners@.len() == 0,
            s.stakes@.len() == 0,
            s.bonds@.len() == 0,
            s.staking_funds@.len() == 0,
    {
        let mut config = config;
        if config.club_reward_next_timestamp / NANOS_PER_SECOND == 0 {
            config.club_reward_next_timestamp = minus_seconds(now, 1);
        }
        let next = config.club_reward_next_timestamp;
        ClubStaking {
            config,
            club_reward_next_timestamp: next,
            reward: 0,
            ownerships: Table::new(),
            previous_owners: Table::new(),
            stakes: Table::new(),
            bonds: Table::new(),
            staking_funds: Table::new(),
        }
    }

    /// Everything but the reward pot is as before.
    pub open spec fn same_but_reward(&self, o: &Self) -> bool {
        &&& self.config == o.config
        &&& self.club_reward_next_timestamp == o.club_reward_next_timestamp
        &&& self.ownerships == o.ownerships
        &&& self.previous_owners == o.previous_owners
        &&& self.stakes == o.stakes
        &&& self.bonds == o.bonds
        &&& self.staking_funds == o.staking_funds
    }

    /// From the token contract only: `amount` tokens sent to the contract join the reward pot.
    pub fn increase_reward_amount(&mut self, sender: &String, reward_from: String, amount: u128) -> (r: Result<Response, ClubError>)
        requires
            old(self).config.minting_contract_address@ == sender@ ==> old(self).reward + amount <= u128::MAX,
        ensures
            old(self).config.minting_contract_address@ != sender@ ==> r == Err::<Response, ClubError>(ClubError::Unauthorized)
                && *final(self) == *old(self),
            old(self).config.minting_contract_address@ == sender@ ==> (r matches Ok(resp) && resp.messages@.len() == 0
                && resp.attrs().len() == 0 && resp.data.is_none() && final(self).reward == old(self).reward + amount
                && final(self).same_but_reward(old(self))),
    {
        if !self.config.minting_contract_address.eq(sender) {
            return Err(ClubError::Unauthorized);
        }
        self.reward = self.reward + amount;
        Ok(Response::empty())
    }

    /// Everything but the previous owners is as before.
    pub open spec fn same_but_previous(&self, o: &Self) -> bool {
        &&& self.config == o.config
        &&& self.club_reward_next_timestamp == o.club_reward_next_timestamp
        &&& self.reward == o.reward
        &&& self.ownerships == o.ownerships
        &&& self.stakes == o.stakes
        &&& self.bonds == o.bonds
        &&& self.staking_funds == o.staking_funds
    }

    /// A previous owner collects the rewards their clubs earned before they were sold;
    /// the record is removed.
    pub fn claim_previous_owner_rewards(&mut self, sender: &String, previous_owner: String) -> (r: Result<Response, ClubError>)
        requires
            old(self).wf(),
        ensures
            final(self).wf(),
            previous_owner@ != sender@ ==> r == Err::<Response, ClubError>(ClubError::Unauthorized) && *final(self) == *old(self),
            previous_owner@ == sender@ ==> match lookup(old(self).previous_owners@, previous_owner@) {
                Some(p) if p.previous_owner_address@ == previous_owner@ => if p.reward_amount == 0 {
                    r == Err::<Response, ClubError>(ClubError::NoRewardsForPreviousOwner) && *final(self) == *old(self)
                } else {
                    r matches Ok(resp) && payout_response(
                        resp,
                        old(self).config.minting_contract_address,
                        previous_owner,
                        p.reward_amount,
                        "previous_owners_reward"@,
                        true,
                    ) && final(self).same_but_previous(old(self)) && final(self).previous_owners@ == removed(
                        old(self).previous_owners@,
                        previous_owner@,
                    )
                },
                _ => r == Err::<Response, ClubError>(ClubError::NotValidPreviousOwner) && *final(self) == *old(self),
            },
    {
        if !previous_owner.eq(sender) {
            return Err(ClubError::Unauthorized);
        }
        let amount = match self.previous_owners.get(&previous_owner) {
            None => {
                return Err(ClubError::NotValidPreviousOwner);
            },
            Some(p) => {
                if !p.previous_owner_address.eq(&previous_owner) {
                    return Err(ClubError::NotValidPreviousOwner);
                }
                if p.reward_amount == 0 {
                    return Err(ClubError::NoRewardsForPreviousOwner);
                }
                p.reward_amount
            },
        };
        self.previous_owners.remove(&previous_owner);
        Ok(payout(self.config.minting_contract_address.clone(), previous_owner, amount, "previous_owners_reward", true))
    }

    /// Everything but the ownerships is as before.
    pub open spec fn same_but_ownerships(&self, o: &Self) -> bool {
        &&& self.config == o.config
        &&& self.club_reward_next_timestamp == o.club_reward_next_timestamp
        &&& self.reward == o.reward
        &&& self.previous_owners == o.previous_owners
        &&& self.stakes == o.stakes
        &&& self.bonds == o.bonds
        &&& self.staking_funds == o.staking_funds
    }

    /// The owner of a club collects the rewards it has earned.
    pub fn claim_owner_rewards(&mut self, sender: &String, owner: String, club_name: String) -> (r: Result<Response, ClubError>)
        requires
            old(self).wf(),
        ensures
            final(self).wf(),
            owner@ != sender@ ==> r == Err::<Response, ClubError>(ClubError::Unauthorized) && *final(self) == *old(self),
            owner@ == sender@ ==> match lookup(old(self).ownerships@, club_name@) {
                Some(o) if o.owner_address@ == owner@ => if o.reward_amount == 0 {
                    r == Err::<Response, ClubError>(ClubError::NoRewardsForOwner) && *final(self) == *old(self)
                } else {
                    r matches Ok(resp) && payout_response(
                        resp,
                        old(self).config.minting_contract_address,
                        owner,
                        o.reward_amount,
                        "owner_reward"@,
                        true,
                    ) && final(self).same_but_ownerships(old(self)) && final(self).ownerships@ == saved(
                        old(self).ownerships@,
                        club_name@,
                        ClubOwnershipDetails { reward_amount: 0, ..o },
                    )
                },
                _ => r == Err::<Response, ClubError>(ClubError::NotValidOwner) && *final(self) == *old(self),
            },
    {
        if !owner.eq(sender) {
            return Err(ClubError::Unauthorized);
        }
        let mut o = match self.ownerships.get(&club_name) {
            None => {
                return Err(ClubError::NotValidOwner);
            },
            Some(o) => {
                if !o.owner_address.eq(&owner) {
                    return Err(ClubError::NotValidOwner);
                }
                if o.reward_amount == 0 {
                    return Err(ClubError::NoRewardsForOwner);
                }
                clone_ownership(o)
            },
        };
        let amount = o.reward_amount;
        o.reward_amount = 0;
        self.ownerships.save(club_name, o);
        Ok(payout(self.config.minting_contract_address.clone(), owner, amount, "owner_reward", true))
    }

    /// The owner of a club releases it for sale, once its locking period is over.
    pub fn release_club(&mut self, sender: &String, seller: String, club_name: String, now: u64) -> (r: Result<Response, ClubError>)
        requires
            old(self).wf(),
            seller@ == sender@ && lookup(old(self).ownerships@, club_name@) is Some
                && lookup(old(self).ownerships@, club_name@).unwrap().owner_address@ == seller@
                ==> minus_seconds_ok(now, lookup(old(self).ownerships@, club_name@).unwrap().locking_period),
        ensures
            final(self).wf(),
            seller@ != sender@ ==> r == Err::<Response, ClubError>(ClubError::Unauthorized) && *final(self) == *old(self),
            seller@ == sender@ ==> match lookup(old(self).ownerships@, club_name@) {
                Some(o) if o.owner_address@ == seller@ => if minus_seconds_spec(now, o.locking_period) < o.start_timestamp {
                    r == Err::<Response, ClubError>(ClubError::LockingPeriodNotOver) && *final(self) == *old(self)
                } else {
                    r matches Ok(resp) && resp.messages@.len() == 0 && resp.attrs().len() == 0 && resp.data.is_none()
                        && final(self).same_but_ownerships(old(self)) && final(self).ownerships@ == saved(
                        old(self).ownerships@,
                        club_name@,
                        ClubOwnershipDetails { owner_released: true, ..o },
                    )
                },
                _ => r == Err::<Response, ClubError>(ClubError::ReleaserNotOwner) && *final(self) == *old(self),
            },
    {
        if !seller.eq(sender) {
            return Err(ClubError::Unauthorized);
        }
        let mut o = match self.ownerships.get(&club_name) {
            None => {
                return Err(ClubError::ReleaserNotOwner);
            },
            Some(o) => {
                if !o.owner_address.eq(&seller) {
                    return Err(ClubError::ReleaserNotOwner);
                }
                if minus_seconds(now, o.locking_period) < o.start_timestamp {
                    return Err(ClubError::LockingPeriodNotOver);
                }
                clone_ownership(o)
            },
        };
        o.owner_released = true;
        self.ownerships.save(club_name, o);
        Ok(Response::empty())
    }
}


/// What a call owes in platform fees, as its message says.
#[derive(Debug, PartialEq, Eq)]
pub enum FeeKind {
    /// Calls that owe nothing.
    Free,
    BuyAClub,
    StakeOnAClub { amount: u128 },
    StakeWithdrawFromAClub { amount: u128 },
}

/// One asset of the price pool: the native stable coin or the token.
#[derive(Debug, PartialEq, Eq)]
pub struct PoolAsset {
    pub is_native: bool,
    pub amount: u128,
}

/// The amount of the last native asset of the pool, 0 if none.
pub open spec fn native_amount(assets: Seq<PoolAsset>) -> u128
    decreases assets.len(),
{
    if assets.len() == 0 {
        0
    } else if assets.last().is_native {
        assets.last().amount
    } else {
        native_amount(assets.drop_last())
    }
}

/// The amount of the last token asset of the pool, 0 if none.
pub open spec fn token_amount(assets: Seq<PoolAsset>) -> u128
    decreases assets.len(),
{
    if assets.len() == 0 {
        0
    } else if !assets.last().is_native {
        assets.last().amount
    } else {
        token_amount(assets.drop_last())
    }
}

/// Fee percentage (in hundredths of a percent) and token amount a kind of call is charged on.
pub open spec fn fee_basis(c: Config, kind: FeeKind) -> (int, u128) {
    match kind {
        FeeKind::Free => (0, 0),
        FeeKind::BuyAClub => (c.platform_fees + c.transaction_fees, c.club_price),
        FeeKind::StakeOnAClub { amount } => (c.platform_fees + c.transaction_fees + c.control_fees, amount),
        FeeKind::StakeWithdrawFromAClub { amount } => (c.platform_fees + c.transaction_fees, amount),
    }
}

/// The fee sums of the configuration do not overflow.
pub open spec fn fee_percentages_fit(c: Config, kind: FeeKind) -> bool {
    match kind {
        FeeKind::Free => true,
        FeeKind::BuyAClub => c.platform_fees + c.transaction_fees <= u128::MAX,
        FeeKind::StakeOnAClub { .. } => c.platform_fees + c.transaction_fees + c.control_fees <= u128::MAX,
        FeeKind::StakeWithdrawFromAClub { .. } => c.platform_fees + c.transaction_fees <= u128::MAX,
    }
}

/// The platform fee in the native coin: the token amount priced at the pool's
/// exchange rate, times the fee percentage, over 100%.
pub open spec fn platform_fee_spec(c: Config, kind: FeeKind, pool: Option<Seq<PoolAsset>>) -> Result<u128, ClubError> {
    if kind is Free {
        Ok(0)
    } else {
        match pool {
            None => Err(ClubError::PoolQueryFailed),
            Some(assets) => {
                let (pct, fury) = fee_basis(c, kind);
                let ust = native_amount(assets);
                let token = token_amount(assets);
                if fury * ust > u128::MAX {
                    Err(ClubError::FeeOverflow)
                } else if token == 0 {
                    Err(ClubError::FeeDivideByZero)
                } else if (fury * ust) / (token as int) * pct > u128::MAX {
                    Err(ClubError::FeeOverflow)
                } else {
                    Ok(((fury * ust) / (token as int) * pct / (HUNDRED_PERCENT as int)) as u128)
                }
            },
        }
    }
}

/// The native coins of denomination `uusd` among the funds sent along.
pub open spec fn uusd_total(funds: Seq<Coin>) -> nat
    decreases funds.len(),
{
    if funds.len() == 0 {
        0
    } else {
        uusd_total(funds.drop_last()) + if funds.last().denom@ == "uusd"@ {
            funds.last().amount as nat
        } else {
            0nat
        }
    }
}

pub proof fn lemma_uusd_total_prefix(funds: Seq<Coin>, j: int)
    requires
        0 <= j <= funds.len(),
    ensures
        uusd_total(funds.take(j)) <= uusd_total(funds),
    decreases funds.len(),
{
    if j < funds.len() {
        assert(funds.drop_last().take(j) =~= funds.take(j));
        lemma_uusd_total_prefix(funds.drop_last(), j);
    } else {
        assert(funds.take(j) =~= funds);
    }
}

/// Sums the `uusd` coins sent along.
pub fn uusd_sent(funds: &Vec<Coin>) -> (r: u128)
    requires
        uusd_total(funds@) <= u128::MAX,
    ensures
        r == uusd_total(funds@),
{
    let mut total: u128 = 0;
    let mut i: usize = 0;
    let uusd = String::from_str("uusd");
    while i < funds.len()
        invariant
            i <= funds@.len(),
            uusd@ == "uusd"@,
            total == uusd_total(funds@.take(i as int)),
            uusd_total(funds@) <= u128::MAX,
        decreases funds@.len() - i,
    {
        proof {
            assert(funds@.take(i + 1).drop_last() =~= funds@.take(i as int));
            lemma_uusd_total_prefix(funds@, i + 1);
        }
        if funds[i].denom.eq(&uusd) {
            total = total + funds[i].amount;
        }
        i = i + 1;
    }
    assert(funds@.take(funds@.len() as int) =~= funds@);
    total
}

/// Sums the `uusd` coins sent along; none where the sum does not fit.
pub fn uusd_sum_checked(funds: &Vec<Coin>) -> (r: Option<u128>)
    ensures
        match r {
            Some(x) => x == uusd_total(funds@),
            None => uusd_total(funds@) > u128::MAX,
        },
{
    let mut total: u128 = 0;
    let mut i: usize = 0;
    let uusd = String::from_str("uusd");
    while i < funds.len()
        invariant
            i <= funds@.len(),
            uusd@ == "uusd"@,
            total == uusd_total(funds@.take(i as int)),
        decreases funds@.len() - i,
    {
        proof {
            assert(funds@.take(i + 1).drop_last() =~= funds@.take(i as int));
            lemma_uusd_total_prefix(funds@, i + 1);
        }
        if funds[i].denom.eq(&uusd) {
            match total.checked_add(funds[i].amount) {
                Some(t) => {
                    total = t;
                },
                None => {
                    return None;
                },
            }
        }
        i = i + 1;
    }
    assert(funds@.take(funds@.len() as int) =~= funds@);
    Some(total)
}

impl ClubStaking {
    /// The platform fee a call owes, priced through the pool's assets as the
    /// price pool reported them (`None`: the query failed).
    pub fn query_platform_fees(&self, kind: &FeeKind, pool: &Option<Vec<PoolAsset>>) -> (r: Result<u128, ClubError>)
        requires
            fee_percentages_fit(self.config, *kind),
        ensures
            r == platform_fee_spec(self.config, *kind, match pool {
                Some(v) => Some(v@),
                None => None,
            }),
    {
        let c = &self.config;
        let (pct, fury) = match kind {
            FeeKind::Free => {
                return Ok(0);
            },
            FeeKind::BuyAClub => (c.platform_fees + c.transaction_fees, c.club_price),
            FeeKind::StakeOnAClub { amount } => (c.platform_fees + c.transaction_fees + c.control_fees, *amount),
            FeeKind::StakeWithdrawFromAClub { amount } => (c.platform_fees + c.transaction_fees, *amount),
        };
        let assets = match pool {
            None => {
                return Err(ClubError::PoolQueryFailed);
            },
            Some(a) => a,
        };
        let mut ust: u128 = 0;
        let mut token: u128 = 0;
        let mut i: usize = 0;
        while i < assets.len()
            invariant
                i <= assets@.len(),
                ust == native_amount(assets@.take(i as int)),
                token == token_amount(assets@.take(i as int)),
            decreases assets@.len() - i,
        {
            assert(assets@.take(i + 1).drop_last() =~= assets@.take(i as int));
            if assets[i].is_native {
                ust = assets[i].amount;
            }
            if !assets[i].is_native {
                token = assets[i].amount;
            }
            i = i + 1;
        }
        assert(assets@.take(assets@.len() as int) =~= assets@);
        let equiv = match fury.checked_mul(ust) {
            None => {
                return Err(ClubError::FeeOverflow);
            },
            Some(x) => x,
        };
        if token == 0 {
            return Err(ClubError::FeeDivideByZero);
        }
        let equiv = equiv / token;
        match equiv.checked_mul(pct) {
            None => Err(ClubError::FeeOverflow),
            Some(x) => Ok(x / HUNDRED_PERCENT),
        }
    }
}


/// Whether `who` owns some club.
pub open spec fn owns_a_club(s: Seq<(Seq<char>, ClubOwnershipDetails)>, who: Seq<char>) -> bool {
    exists|i: int| 0 <= i < s.len() && #[trigger] s[i].1.owner_address@ == who
}

/// The seller named in a purchase, the empty text where none is.
pub open spec fn seller_text(seller: Option<String>) -> Seq<char> {
    match seller {
        Some(s) => s@,
        None => Seq::empty(),
    }
}

/// The view of an optional pool report.
pub open spec fn pool_view(pool: Option<Vec<PoolAsset>>) -> Option<Seq<PoolAsset>> {
    match pool {
        Some(v) => Some(v@),
        None => None,
    }
}

/// `<prefix><n><suffix>` as text.
pub fn amount_note(prefix: &str, n: u128, suffix: &str) -> (s: String)
    ensures
        s@ == prefix@ + decimal_text(n as nat) + suffix@,
{
    let d = decimal(n);
    String::from_str(prefix).concat(d.as_str()).concat(suffix)
}

impl ClubStaking {
    /// The first check a purchase fails.
    pub open spec fn buy_error(&self, funds: Seq<Coin>, buyer: Seq<char>, seller: Seq<char>, club_name: Seq<char>, price: u128, query_needed: bool, pool: Option<Seq<PoolAsset>>) -> Option<ClubError> {
        if price != self.config.club_price {
            Some(ClubError::ClubPriceMismatch)
        } else if query_needed && platform_fee_spec(self.config, FeeKind::BuyAClub, pool) is Err {
            Some(platform_fee_spec(self.config, FeeKind::BuyAClub, pool)->Err_0)
        } else if query_needed && uusd_total(funds) != platform_fee_spec(self.config, FeeKind::BuyAClub, pool)->Ok_0 {
            Some(ClubError::InsufficientFees {
                required: platform_fee_spec(self.config, FeeKind::BuyAClub, pool)->Ok_0,
                received: uusd_total(funds) as u128,
            })
        } else if owns_a_club(self.ownerships@, buyer) {
            Some(ClubError::BuyerAlreadyOwns)
        } else if lookup(self.ownerships@, club_name) is Some && !lookup(self.ownerships@, club_name).unwrap().owner_released {
            Some(ClubError::OwnerNotReleased)
        } else if lookup(self.ownerships@, club_name) is Some && lookup(self.ownerships@, club_name).unwrap().owner_address@
            != Seq::<char>::empty() && lookup(self.ownerships@, club_name).unwrap().owner_address@ != seller {
            Some(ClubError::SellerNotOwner)
        } else {
            None
        }
    }

    /// The purchase runs without arithmetic overflow.
    pub open spec fn buy_panic_free(&self, funds: Seq<Coin>, seller: Seq<char>, club_name: Seq<char>, price: u128, query_needed: bool, pool: Option<Seq<PoolAsset>>) -> bool {
        &&& (query_needed && price == self.config.club_price ==> fee_percentages_fit(self.config, FeeKind::BuyAClub))
        &&& (query_needed && price == self.config.club_price && platform_fee_spec(self.config, FeeKind::BuyAClub, pool) is Ok
            ==> uusd_total(funds) <= u128::MAX)
        &&& (lookup(self.ownerships@, club_name) is Some ==> funds_of_previous(self.previous_owners@, seller)
            + lookup(self.ownerships@, club_name).unwrap().reward_amount <= u128::MAX)
    }

    /// Whether a purchase runs without arithmetic overflow, as the purchase itself needs.
    pub fn buy_ready(&self, funds: &Vec<Coin>, seller: &Option<String>, club_name: &String, price: u128, query_needed: bool, pool: &Option<Vec<PoolAsset>>) -> (r: bool)
        requires
            self.wf(),
        ensures
            r == self.buy_panic_free(funds@, seller_text(*seller), club_name@, price, query_needed, pool_view(*pool)),
    {
        if query_needed && price == self.config.club_price {
            if self.config.platform_fees.checked_add(self.config.transaction_fees).is_none() {
                return false;
            }
            if self.query_platform_fees(&FeeKind::BuyAClub, pool).is_ok() && uusd_sum_checked(funds).is_none() {
                return false;
            }
        }
        let owned = match self.ownerships.get(club_name) {
            None => {
                return true;
            },
            Some(o) => o.reward_amount,
        };
        let name = match seller {
            Some(s) => s.clone(),
            None => String::new(),
        };
        assert(name@ == seller_text(*seller));
        let kept = match self.previous_owners.get(&name) {
            Some(p) => p.reward_amount,
            None => 0,
        };
        kept.checked_add(owned).is_some()
    }

    /// Everything but ownerships and previous owners is as before.
    pub open spec fn same_but_owners(&self, o: &Self) -> bool {
        &&& self.config == o.config
        &&& self.club_reward_next_timestamp == o.club_reward_next_timestamp
        &&& self.reward == o.reward
        &&& self.stakes == o.stakes
        &&& self.bonds == o.bonds
        &&& self.staking_funds == o.staking_funds
    }

    /// A buyer takes over a club that has no owner, or whose owner (the
    /// seller) has released it. The club price goes from the sender to the
    /// club fee wallet, the native coins sent along (which must be exactly the
    /// platform fee, where it is asked for) to the platform fee wallet. Rewards
    /// the club earned under the seller are kept for the seller to collect.
    #[verifier::loop_isolation(false)]
    pub fn buy_a_club(
        &mut self,
        sender: &String,
        funds: Vec<Coin>,
        buyer: String,
        seller: Option<String>,
        club_name: String,
        price: u128,
        query_needed: bool,
        now: u64,
        pool: &Option<Vec<PoolAsset>>,
    ) -> (r: Result<Response, ClubError>)
        requires
            old(self).wf(),
            old(self).buy_panic_free(funds@, seller_text(seller), club_name@, price, query_needed, pool_view(*pool)),
        ensures
            final(self).wf(),
            old(self).buy_error(funds@, buyer@, seller_text(seller), club_name@, price, query_needed, pool_view(*pool)) matches Some(e)
                ==> r == Err::<Response, ClubError>(e) && *final(self) == *old(self),
            old(self).buy_error(funds@, buyer@, seller_text(seller), club_name@, price, query_needed, pool_view(*pool)).is_none() ==> ({
                let prev = lookup(old(self).ownerships@, club_name@);
                &&& r matches Ok(resp) && resp.messages@ == seq![
                    Msg::Token {
                        contract: old(self).config.minting_contract_address,
                        call: TokenCall::TransferFrom { owner: *sender, recipient: old(self).config.club_fee_collector_wallet, amount: price },
                    },
                    Msg::Bank { to_address: old(self).config.platform_fees_collector_wallet, coins: funds },
                ] && resp.attrs() == seq![
                    ("action"@, "buy_a_club"@),
                    ("buyer"@, buyer@),
                    ("club_name"@, club_name@),
                    ("fees"@, decimal_text(price as nat)),
                ] && resp.data_text() == Some("Club fees "@ + decimal_text(price as nat) + " received"@)
                &&& final(self).same_but_owners(old(self))
                &&& final(self).ownerships@ == saved(
                    old(self).ownerships@,
                    club_name@,
                    ClubOwnershipDetails {
                        club_name,
                        start_timestamp: now,
                        locking_period: 0,
                        owner_address: buyer,
                        price_paid: price,
                        reward_amount: 0,
                        owner_released: false,
                    },
                )
                &&& (prev is Some && prev.unwrap().reward_amount != 0 ==> exists|p: ClubPreviousOwnerDetails|
                    p.previous_owner_address@ == seller_text(seller) && p.reward_amount == funds_of_previous(
                        old(self).previous_owners@,
                        seller_text(seller),
                    ) + prev.unwrap().reward_amount && final(self).previous_owners@ == saved(
                        old(self).previous_owners@,
                        seller_text(seller),
                        p,
                    ))
                &&& (!(prev is Some && prev.unwrap().reward_amount != 0) ==> final(self).previous_owners == old(self).previous_owners)
            }),
    {
        let seller = match seller {
            Some(s) => s,
            None => String::new(),
        };
        if price != self.config.club_price {
            return Err(ClubError::ClubPriceMismatch);
        }
        if query_needed {
            let required = match self.query_platform_fees(&FeeKind::BuyAClub, pool) {
                Err(e) => {
                    return Err(e);
                },
                Ok(x) => x,
            };
            let fees = uusd_sent(&funds);
            if fees != required {
                return Err(ClubError::InsufficientFees { required, received: fees });
            }
        }
        let mut i: usize = 0;
        while i < self.ownerships.len()
            invariant
                i <= self.ownerships@.len(),
                forall|j: int| 0 <= j < i ==> #[trigger] self.ownerships@[j].1.owner_address@ != buyer@,
            decreases self.ownerships@.len() - i,
        {
            if buyer.eq(&self.ownerships.val_at(i).owner_address) {
                assert(self.ownerships@[i as int].1.owner_address@ == buyer@);
                return Err(ClubError::BuyerAlreadyOwns);
            }
            i = i + 1;
        }
        let empty = String::new();
        let previous_reward = match self.ownerships.get(&club_name) {
            None => 0,
            Some(o) => {
                if !o.owner_released {
                    return Err(ClubError::OwnerNotReleased);
                }
                if !o.owner_address.eq(&empty) && !o.owner_address.eq(&seller) {
                    return Err(ClubError::SellerNotOwner);
                }
                o.reward_amount
            },
        };
        if previous_reward != 0 {
            let existing = match self.previous_owners.get(&seller) {
                Some(p) => p.reward_amount,
                None => 0,
            };
            self.previous_owners.save(
                seller.clone(),
                ClubPreviousOwnerDetails { previous_owner_address: seller, reward_amount: existing + previous_reward },
            );
        }
        let attr_buyer = buyer.clone();
        let attr_club = club_name.clone();
        self.ownerships.save(
            club_name.clone(),
            ClubOwnershipDetails {
                club_name,
                start_timestamp: now,
                locking_period: 0,
                owner_address: buyer,
                price_paid: price,
                reward_amount: 0,
                owner_released: false,
            },
        );
        let mut resp = Response::empty();
        resp.add_msg(
            Msg::Token {
                contract: self.config.minting_contract_address.clone(),
                call: TokenCall::TransferFrom {
                    owner: sender.clone(),
                    recipient: self.config.club_fee_collector_wallet.clone(),
                    amount: price,
                },
            },
        );
        resp.add_msg(Msg::Bank { to_address: self.config.platform_fees_collector_wallet.clone(), coins: funds });
        resp.add_attr("action", String::from_str("buy_a_club"));
        resp.add_attr("buyer", attr_buyer);
        resp.add_attr("club_name", attr_club);
        resp.add_attr("fees", decimal(price));
        resp.data = Some(amount_note("Club fees ", price, " received"));
        assert(resp.attrs() =~= seq![
            ("action"@, "buy_a_club"@),
            ("buyer"@, buyer@),
            ("club_name"@, club_name@),
            ("fees"@, decimal_text(price as nat)),
        ]);
        Ok(resp)
    }
}

/// The reward kept for a previous owner, 0 if none.
pub open spec fn funds_of_previous(s: Seq<(Seq<char>, ClubPreviousOwnerDetails)>, who: Seq<char>) -> u128 {
    match lookup(s, who) {
        Some(p) => p.reward_amount,
        None => 0,
    }
}


/// A stake list after `staker`'s stake changed by `amount` (up, or down), with
/// stakes that come to zero dropped; `true` where `staker` had a stake. None
/// where a decrease asks for more than is staked.
pub open spec fn stake_fold(l: Seq<ClubStakingDetails>, staker: Seq<char>, amount: u128, increase: bool) -> Option<(Seq<ClubStakingDetails>, bool)>
    decreases l.len(),
{
    if l.len() == 0 {
        Some((Seq::empty(), false))
    } else {
        match stake_fold(l.drop_last(), staker, amount, increase) {
            None => None,
            Some((kept, found)) => {
                let t = l.last();
                if t.staker_address@ == staker {
                    if !increase && t.staked_amount < amount {
                        None
                    } else {
                        let u = ClubStakingDetails {
                            staked_amount: if increase {
                                (t.staked_amount + amount) as u128
                            } else {
                                (t.staked_amount - amount) as u128
                            },
                            ..t
                        };
                        Some((if u.staked_amount > 0 { kept.push(u) } else { kept }, true))
                    }
                } else {
                    Some((if t.staked_amount > 0 { kept.push(t) } else { kept }, found))
                }
            },
        }
    }
}

/// No stake of `staker` in the list overflows when `amount` is added.
pub open spec fn stake_increase_fits(l: Seq<ClubStakingDetails>, staker: Seq<char>, amount: u128) -> bool {
    forall|i: int| 0 <= i < l.len() && #[trigger] l[i].staker_address@ == staker ==> l[i].staked_amount + amount <= u128::MAX
}

/// A new stake.
pub open spec fn new_stake(staker: String, club_name: String, amount: u128, now: u64) -> ClubStakingDetails {
    ClubStakingDetails {
        staker_address: staker,
        staking_start_timestamp: now,
        staked_amount: amount,
        staking_duration: 0,
        club_name,
        reward_amount: 0,
    }
}

/// The stake table after a stake change; none where a decrease is too large.
pub open spec fn staking_saved(
    t: Seq<(Seq<char>, Seq<ClubStakingDetails>)>,
    staker: String,
    club_name: String,
    amount: u128,
    increase: bool,
    now: u64,
) -> Option<Seq<(Seq<char>, Seq<ClubStakingDetails>)>> {
    let l = stakes_of(t, club_name@);
    match stake_fold(l, staker@, amount, increase) {
        None => None,
        Some((kept, found)) => if found {
            Some(saved(t, club_name@, kept))
        } else if increase {
            Some(saved(t, club_name@, l.push(new_stake(staker, club_name, amount, now))))
        } else {
            Some(t)
        },
    }
}

impl ClubStaking {
    /// Everything but stakes and staking funds is as before.
    pub open spec fn same_but_stakes(&self, o: &Self) -> bool {
        &&& self.config == o.config
        &&& self.club_reward_next_timestamp == o.club_reward_next_timestamp
        &&& self.reward == o.reward
        &&& self.ownerships == o.ownerships
        &&& self.previous_owners == o.previous_owners
        &&& self.bonds == o.bonds
    }

    /// Changes `staker`'s stake on a club by `amount`; a first stake is added.
    #[verifier::loop_isolation(false)]
    pub(crate) fn save_staking_details(&mut self, staker: String, club_name: String, amount: u128, increase: bool, now: u64) -> (r: Result<(), ClubError>)
        requires
            old(self).wf(),
            increase ==> stake_increase_fits(stakes_of(old(self).stakes@, club_name@), staker@, amount),
        ensures
            final(self).wf(),
            final(self).same_but_stakes(old(self)),
            final(self).staking_funds == old(self).staking_funds,
            match staking_saved(old(self).stakes@, staker, club_name, amount, increase, now) {
                None => r == Err::<(), ClubError>(ClubError::ExcessWithdrawal) && *final(self) == *old(self),
                Some(t) => r is Ok && final(self).stakes@ == t,
            },
    {
        let l = match self.stakes.get(&club_name) {
            Some(l) => clone_stakes(l),
            None => Vec::new(),
        };
        assert(l@ =~= stakes_of(self.stakes@, club_name@));
        let mut kept: Vec<ClubStakingDetails> = Vec::new();
        let mut found = false;
        proof {
            if increase {
                lemma_stake_fold_increase(l@, staker@, amount);
            }
        }
        let mut i: usize = 0;
        while i < l.len()
            invariant
                i <= l@.len(),
                increase ==> stake_increase_fits(l@, staker@, amount),
                stake_fold(l@.take(i as int), staker@, amount, increase) == Some((kept@, found)),
            decreases l@.len() - i,
        {
            assert(l@.take(i + 1).drop_last() =~= l@.take(i as int));
            let mut u = clone_stake(&l[i]);
            if u.staker_address.eq(&staker) {
                if increase {
                    u.staked_amount = u.staked_amount + amount;
                } else if u.staked_amount >= amount {
                    u.staked_amount = u.staked_amount - amount;
                } else {
                    proof {
                        lemma_stake_fold_none(l@, staker@, amount, increase, i as int + 1);
                    }
                    return Err(ClubError::ExcessWithdrawal);
                }
                found = true;
            }
            if u.staked_amount > 0 {
                kept.push(u);
            }
            i = i + 1;
        }
        assert(l@.take(l@.len() as int) =~= l@);
        if found {
            self.stakes.save(club_name, kept);
        } else if increase {
            let mut l = l;
            l.push(ClubStakingDetails {
                staker_address: staker,
                staking_start_timestamp: now,
                staked_amount: amount,
                staking_duration: 0,
                club_name: club_name.clone(),
                reward_amount: 0,
            });
            self.stakes.save(club_name, l);
        }
        Ok(())
    }
}

/// An increase always goes through.
pub proof fn lemma_stake_fold_increase(l: Seq<ClubStakingDetails>, staker: Seq<char>, amount: u128)
    ensures
        stake_fold(l, staker, amount, true).is_some(),
    decreases l.len(),
{
    if l.len() > 0 {
        lemma_stake_fold_increase(l.drop_last(), staker, amount);
    }
}

pub proof fn lemma_stake_fold_none(l: Seq<ClubStakingDetails>, staker: Seq<char>, amount: u128, increase: bool, n: int)
    requires
        0 < n <= l.len(),
        stake_fold(l.take(n), staker, amount, increase).is_none(),
    ensures
        stake_fold(l, staker, amount, increase).is_none(),
    decreases l.len(),
{
    if n < l.len() {
        assert(l.drop_last().take(n) =~= l.take(n));
        lemma_stake_fold_none(l.drop_last(), staker, amount, increase, n);
    } else {
        assert(l.take(n) =~= l);
    }
}


/// The fee-exempt sender of stakes.
pub open spec fn stake_fee_exempt(sender: Seq<char>) -> bool {
    sender == "minting_admin11111"@
}

impl ClubStaking {
    /// The platform fee a stake owes: none for the exempt sender.
    pub open spec fn stake_fee(&self, sender: Seq<char>, amount: u128, pool: Option<Seq<PoolAsset>>) -> Result<u128, ClubError> {
        if stake_fee_exempt(sender) {
            Ok(0)
        } else {
            platform_fee_spec(self.config, FeeKind::StakeOnAClub { amount }, pool)
        }
    }

    /// The first check a stake fails.
    pub open spec fn stake_error(&self, sender: Seq<char>, funds: Seq<Coin>, club_name: Seq<char>, amount: u128, pool: Option<Seq<PoolAsset>>) -> Option<ClubError> {
        if self.stake_fee(sender, amount, pool) is Err {
            Some(self.stake_fee(sender, amount, pool)->Err_0)
        } else if uusd_total(funds) < self.stake_fee(sender, amount, pool)->Ok_0 {
            Some(ClubError::InsufficientFees { required: self.stake_fee(sender, amount, pool)->Ok_0, received: uusd_total(funds) as u128 })
        } else if !has_key(self.ownerships@, club_name) {
            Some(ClubError::ClubNotAvailable)
        } else {
            None
        }
    }

    /// The stake runs without arithmetic overflow.
    pub open spec fn stake_panic_free(&self, sender: Seq<char>, funds: Seq<Coin>, staker: Seq<char>, club_name: Seq<char>, amount: u128, pool: Option<Seq<PoolAsset>>) -> bool {
        &&& (!stake_fee_exempt(sender) ==> fee_percentages_fit(self.config, FeeKind::StakeOnAClub { amount }))
        &&& (self.stake_fee(sender, amount, pool) is Ok ==> uusd_total(funds) <= u128::MAX)
        &&& stake_increase_fits(stakes_of(self.stakes@, club_name), staker, amount)
        &&& funds_of(self.staking_funds@, staker) + amount <= u128::MAX
    }

    /// Whether a stake runs without arithmetic overflow, as the stake itself needs.
    pub fn stake_ready(&self, sender: &String, funds: &Vec<Coin>, staker: &String, club_name: &String, amount: u128, pool: &Option<Vec<PoolAsset>>) -> (r: bool)
        requires
            self.wf(),
        ensures
            r == self.stake_panic_free(sender@, funds@, staker@, club_name@, amount, pool_view(*pool)),
    {
        let exempt = String::from_str("minting_admin11111");
        let fee = if sender.eq(&exempt) {
            Ok(0)
        } else {
            let c = &self.config;
            match c.platform_fees.checked_add(c.transaction_fees) {
                None => {
                    return false;
                },
                Some(x) => {
                    if x.checked_add(c.control_fees).is_none() {
                        return false;
                    }
                },
            }
            self.query_platform_fees(&FeeKind::StakeOnAClub { amount }, pool)
        };
        assert(fee == self.stake_fee(sender@, amount, pool_view(*pool)));
        if fee.is_ok() && uusd_sum_checked(funds).is_none() {
            return false;
        }
        let held = match self.staking_funds.get(staker) {
            Some(b) => *b,
            None => 0,
        };
        if held.checked_add(amount).is_none() {
            return false;
        }
        let ghost l = stakes_of(self.stakes@, club_name@);
        let ghost ready = self.stake_panic_free(sender@, funds@, staker@, club_name@, amount, pool_view(*pool));
        assert(ready == stake_increase_fits(l, staker@, amount));
        match self.stakes.get(club_name) {
            None => true,
            Some(stakes) => {
                let mut i: usize = 0;
                while i < stakes.len()
                    invariant
                        i <= stakes@.len(),
                        stakes@ == l,
                        ready == stake_increase_fits(l, staker@, amount),
                        ready == self.stake_panic_free(sender@, funds@, staker@, club_name@, amount, pool_view(*pool)),
                        forall|k: int| 0 <= k < i && #[trigger] l[k].staker_address@ == staker@ ==> l[k].staked_amount + amount <= u128::MAX,
                    decreases stakes@.len() - i,
                {
                    if stakes[i].staker_address.eq(staker) && stakes[i].staked_amount.checked_add(amount).is_none() {
                        assert(l[i as int].staker_address@ == staker@);
                        assert(!stake_increase_fits(l, staker@, amount));
                        return false;
                    }
                    i = i + 1;
                }
                true
            },
        }
    }

    /// A staker stakes `amount` tokens (already sent to the contract) on an
    /// owned club; the native coins sent along must cover the platform fee and
    /// go on to the platform fee wallet.
    pub fn stake_on_a_club(
        &mut self,
        sender: &String,
        funds: Vec<Coin>,
        staker: String,
        club_name: String,
        amount: u128,
        now: u64,
        pool: &Option<Vec<PoolAsset>>,
    ) -> (r: Result<Response, ClubError>)
        requires
            old(self).wf(),
            old(self).stake_panic_free(sender@, funds@, staker@, club_name@, amount, pool_view(*pool)),
        ensures
            final(self).wf(),
            old(self).stake_error(sender@, funds@, club_name@, amount, pool_view(*pool)) matches Some(e)
                ==> r == Err::<Response, ClubError>(e) && *final(self) == *old(self),
            old(self).stake_error(sender@, funds@, club_name@, amount, pool_view(*pool)).is_none() ==> ({
                &&& r matches Ok(resp) && resp.messages@ == seq![
                    Msg::Bank { to_address: old(self).config.platform_fees_collector_wallet, coins: funds },
                ] && resp.attrs() == seq![
                    ("action"@, "stake_on_a_club"@),
                    ("staker"@, staker@),
                    ("club_name"@, club_name@),
                    ("stake"@, decimal_text(amount as nat)),
                ] && resp.data_text() == Some("Club stake "@ + decimal_text(amount as nat) + " received"@)
                &&& final(self).same_but_stakes(old(self))
                &&& Some(final(self).stakes@) == staking_saved(old(self).stakes@, staker, club_name, amount, true, now)
                &&& final(self).staking_funds@ == saved(
                    old(self).staking_funds@,
                    staker@,
                    (funds_of(old(self).staking_funds@, staker@) + amount) as u128,
                )
            }),
    {
        let exempt = String::from_str("minting_admin11111");
        let required = if sender.eq(&exempt) {
            0
        } else {
            match self.query_platform_fees(&FeeKind::StakeOnAClub { amount }, pool) {
                Err(e) => {
                    return Err(e);
                },
                Ok(x) => x,
            }
        };
        let fees = uusd_sent(&funds);
        if fees < required {
            return Err(ClubError::InsufficientFees { required, received: fees });
        }
        if !self.ownerships.contains(&club_name) {
            return Err(ClubError::ClubNotAvailable);
        }
        let attr_staker = staker.clone();
        let attr_club = club_name.clone();
        proof {
            lemma_stake_fold_increase(stakes_of(self.stakes@, club_name@), staker@, amount);
        }
        let r = self.save_staking_details(staker.clone(), club_name, amount, true, now);
        let balance = match self.staking_funds.get(&staker) {
            Some(b) => *b,
            None => 0,
        };
        self.staking_funds.save(staker, balance + amount);
        let mut resp = Response::empty();
        resp.add_msg(Msg::Bank { to_address: self.config.platform_fees_collector_wallet.clone(), coins: funds });
        resp.add_attr("action", String::from_str("stake_on_a_club"));
        resp.add_attr("staker", attr_staker);
        resp.add_attr("club_name", attr_club);
        resp.add_attr("stake", decimal(amount));
        resp.data = Some(amount_note("Club stake ", amount, " received"));
        assert(resp.attrs() =~= seq![
            ("action"@, "stake_on_a_club"@),
            ("staker"@, staker@),
            ("club_name"@, club_name@),
            ("stake"@, decimal_text(amount as nat)),
        ]);
        assert(resp.messages@ =~= seq![Msg::Bank { to_address: old(self).config.platform_fees_collector_wallet, coins: funds }]);
        Ok(resp)
    }
}

/// The rewards of `staker`'s stakes in a list.
pub open spec fn staker_rewards(l: Seq<ClubStakingDetails>, staker: Seq<char>) -> nat
    decreases l.len(),
{
    if l.len() == 0 {
        0
    } else {
        staker_rewards(l.drop_last(), staker) + if l.last().staker_address@ == staker {
            l.last().reward_amount as nat
        } else {
            0nat
        }
    }
}

/// A stake list with `staker`'s rewards collected.
pub open spec fn rewards_collected(l: Seq<ClubStakingDetails>, staker: Seq<char>) -> Seq<ClubStakingDetails> {
    l.map_values(|t: ClubStakingDetails| if t.staker_address@ == staker { ClubStakingDetails { reward_amount: 0, ..t } } else { t })
}

pub proof fn lemma_staker_rewards_prefix(l: Seq<ClubStakingDetails>, staker: Seq<char>, j: int)
    requires
        0 <= j <= l.len(),
    ensures
        staker_rewards(l.take(j), staker) <= staker_rewards(l, staker),
    decreases l.len(),
{
    if j < l.len() {
        assert(l.drop_last().take(j) =~= l.take(j));
        lemma_staker_rewards_prefix(l.drop_last(), staker, j);
    } else {
        assert(l.take(j) =~= l);
    }
}

impl ClubStaking {
    /// Whether a staker's rewards on a club add up to an amount, as
    /// collecting them needs.
    pub fn rewards_summable(&self, staker: &String, club_name: &String) -> (r: bool)
        requires
            self.wf(),
        ensures
            r == (staker_rewards(stakes_of(self.stakes@, club_name@), staker@) <= u128::MAX),
    {
        let l = match self.stakes.get(club_name) {
            Some(l) => l,
            None => {
                return true;
            },
        };
        let ghost full = stakes_of(self.stakes@, club_name@);
        assert(l@ == full);
        let mut total: u128 = 0;
        let mut i: usize = 0;
        while i < l.len()
            invariant
                i <= l@.len(),
                l@ == full,
                full == stakes_of(self.stakes@, club_name@),
                total == staker_rewards(full.take(i as int), staker@),
            decreases l@.len() - i,
        {
            proof {
                assert(full.take(i + 1).drop_last() =~= full.take(i as int));
                lemma_staker_rewards_prefix(full, staker@, i + 1);
            }
            if l[i].staker_address.eq(staker) {
                match total.checked_add(l[i].reward_amount) {
                    Some(x) => {
                        total = x;
                    },
                    None => {
                        return false;
                    },
                }
            }
            i = i + 1;
        }
        assert(full.take(full.len() as int) =~= full);
        true
    }

    /// A staker collects the rewards of their stake on a club.
    #[verifier::loop_isolation(false)]
    pub fn claim_rewards(&mut self, sender: &String, staker: String, club_name: String) -> (r: Result<Response, ClubError>)
        requires
            old(self).wf(),
            staker@ == sender@ ==> staker_rewards(stakes_of(old(self).stakes@, club_name@), staker@) <= u128::MAX,
        ensures
            final(self).wf(),
            staker@ != sender@ ==> r == Err::<Response, ClubError>(ClubError::Unauthorized) && *final(self) == *old(self),
            staker@ == sender@ ==> ({
                let l = stakes_of(old(self).stakes@, club_name@);
                let total = staker_rewards(l, staker@);
                if !(exists|i: int| 0 <= i < l.len() && #[trigger] l[i].staker_address@ == staker@) {
                    r == Err::<Response, ClubError>(ClubError::NotValidStaker) && *final(self) == *old(self)
                } else if total == 0 {
                    r == Err::<Response, ClubError>(ClubError::NoRewardsForUser) && *final(self) == *old(self)
                } else {
                    r matches Ok(resp) && payout_response(
                        resp,
                        old(self).config.minting_contract_address,
                        staker,
                        total as u128,
                        "staking_reward_claim"@,
                        true,
                    ) && final(self).same_but_stakes(old(self)) && final(self).staking_funds == old(self).staking_funds
                        && final(self).stakes@ == saved(old(self).stakes@, club_name@, rewards_collected(l, staker@))
                }
            }),
    {
        if !staker.eq(sender) {
            return Err(ClubError::Unauthorized);
        }
        let l = match self.stakes.get(&club_name) {
            Some(l) => clone_stakes(l),
            None => Vec::new(),
        };
        assert(l@ =~= stakes_of(self.stakes@, club_name@));
        let mut updated: Vec<ClubStakingDetails> = Vec::new();
        let mut amount: u128 = 0;
        let mut found = false;
        let mut i: usize = 0;
        while i < l.len()
            invariant
                i <= l@.len(),
                amount == staker_rewards(l@.take(i as int), staker@),
                staker_rewards(l@, staker@) <= u128::MAX,
                updated@ == rewards_collected(l@.take(i as int), staker@),
                found == exists|j: int| 0 <= j < i && #[trigger] l@[j].staker_address@ == staker@,
            decreases l@.len() - i,
        {
            proof {
                assert(l@.take(i + 1).drop_last() =~= l@.take(i as int));
                lemma_staker_rewards_prefix(l@, staker@, i + 1);
            }
            let mut u = clone_stake(&l[i]);
            if u.staker_address.eq(&staker) {
                amount = amount + u.reward_amount;
                u.reward_amount = 0;
                found = true;
            }
            updated.push(u);
            assert(updated@ =~= rewards_collected(l@.take(i + 1), staker@));
            i = i + 1;
        }
        assert(l@.take(l@.len() as int) =~= l@);
        if !found {
            return Err(ClubError::NotValidStaker);
        }
        if amount == 0 {
            return Err(ClubError::NoRewardsForUser);
        }
        self.stakes.save(club_name, updated);
        Ok(payout(self.config.minting_contract_address.clone(), staker, amount, "staking_reward_claim", true))
    }

    /// Everything but the bonds is as before.
    pub open spec fn same_but_bonds(&self, o: &Self) -> bool {
        &&& self.config == o.config
        &&& self.club_reward_next_timestamp == o.club_reward_next_timestamp
        &&& self.reward == o.reward
        &&& self.ownerships == o.ownerships
        &&& self.previous_owners == o.previous_owners
        &&& self.stakes == o.stakes
        &&& self.staking_funds == o.staking_funds
    }

    /// Adds a bond of withdrawn stake to a club's bond list.
    pub(crate) fn save_bonding_details(&mut self, bonder: String, club_name: String, bonded_amount: u128, duration: u64, now: u64)
        requires
            old(self).wf(),
        ensures
            final(self).wf(),
            final(self).same_but_bonds(old(self)),
            final(self).bonds@ == saved(
                old(self).bonds@,
                club_name@,
                bonds_of(old(self).bonds@, club_name@).push(ClubBondingDetails {
                    bonder_address: bonder,
                    bonding_start_timestamp: now,
                    bonded_amount,
                    bonding_duration: duration,
                    club_name,
                }),
            ),
    {
        let mut l = match self.bonds.get(&club_name) {
            Some(l) => clone_bonds(l),
            None => Vec::new(),
        };
        assert(l@ =~= bonds_of(self.bonds@, club_name@));
        l.push(ClubBondingDetails {
            bonder_address: bonder,
            bonding_start_timestamp: now,
            bonded_amount,
            bonding_duration: duration,
            club_name: club_name.clone(),
        });
        self.bonds.save(club_name, l);
    }
}

/// A bond whose bonding period is not over at `now` (its start is after `now` less its duration).
pub open spec fn bond_pending(b: ClubBondingDetails, now: u64) -> bool {
    minus_seconds_spec(now, b.bonding_duration) < b.bonding_start_timestamp
}

/// Every bond of every club can be measured against `now`.
pub open spec fn bonds_measurable(t: Seq<(Seq<char>, Seq<ClubBondingDetails>)>, now: u64) -> bool {
    forall|i: int, j: int| 0 <= i < t.len() && 0 <= j < t[i].1.len() ==> minus_seconds_ok(now, #[trigger] t[i].1[j].bonding_duration)
}

/// The bonds of a list still pending at `now`, in order.
pub open spec fn pending_bonds(l: Seq<ClubBondingDetails>, now: u64) -> Seq<ClubBondingDetails>
    decreases l.len(),
{
    if l.len() == 0 {
        l
    } else if bond_pending(l.last(), now) {
        pending_bonds(l.drop_last(), now).push(l.last())
    } else {
        pending_bonds(l.drop_last(), now)
    }
}

/// The bond lists after matured bonds are dropped, club by club.
pub open spec fn bonds_refunded(t: Seq<(Seq<char>, Seq<ClubBondingDetails>)>, now: u64) -> Seq<(Seq<char>, Seq<ClubBondingDetails>)> {
    t.map_values(|e: (Seq<char>, Seq<ClubBondingDetails>)| (e.0, pending_bonds(e.1, now)))
}

impl ClubStaking {
    /// Whether every bond of every club can be measured against `now`, as
    /// dropping the matured bonds needs.
    pub fn bonds_measured(&self, now: u64) -> (r: bool)
        requires
            self.wf(),
        ensures
            r == bonds_measurable(self.bonds@, now),
    {
        let ghost t = self.bonds@;
        let mut i: usize = 0;
        while i < self.bonds.len()
            invariant
                i <= t.len(),
                t == self.bonds@,
                self.bonds.wf(),
                forall|a: int, b: int| 0 <= a < i && 0 <= b < t[a].1.len() ==> minus_seconds_ok(now, #[trigger] t[a].1[b].bonding_duration),
            decreases t.len() - i,
        {
            let l = self.bonds.val_at(i);
            let mut j: usize = 0;
            while j < l.len()
                invariant
                    j <= l@.len(),
                    i < t.len(),
                    t == self.bonds@,
                    l@ == t[i as int].1,
                    forall|a: int, b: int| 0 <= a < i && 0 <= b < t[a].1.len() ==> minus_seconds_ok(now, #[trigger] t[a].1[b].bonding_duration),
                    forall|b: int| 0 <= b < j ==> minus_seconds_ok(now, #[trigger] t[i as int].1[b].bonding_duration),
                decreases l@.len() - j,
            {
                if !can_subtract_seconds(now, l[j].bonding_duration) {
                    assert(!minus_seconds_ok(now, t[i as int].1[j as int].bonding_duration));
                    assert(!bonds_measurable(t, now));
                    return false;
                }
                j = j + 1;
            }
            assert forall|a: int, b: int| 0 <= a < i + 1 && 0 <= b < t[a].1.len() implies minus_seconds_ok(now, #[trigger] t[a].1[b].bonding_duration) by {
                if a == i {
                    assert(minus_seconds_ok(now, t[i as int].1[b].bonding_duration));
                }
            }
            i = i + 1;
        }
        true
    }

    /// Admin only: drops the bonds whose bonding period is over.
    pub fn periodically_refund_stakeouts(&mut self, sender: &String, now: u64) -> (r: Result<Response, ClubError>)
        requires
            old(self).wf(),
            old(self).is_admin(sender@) ==> bonds_measurable(old(self).bonds@, now),
        ensures
            final(self).wf(),
            !old(self).is_admin(sender@) ==> r == Err::<Response, ClubError>(ClubError::Unauthorized) && *final(self) == *old(self),
            old(self).is_admin(sender@) ==> (r matches Ok(resp) && resp.messages@.len() == 0 && resp.attrs().len() == 0
                && resp.data.is_none() && final(self).same_but_bonds(old(self))
                && final(self).bonds@ == bonds_refunded(old(self).bonds@, now)),
    {
        if !self.config.admin_address.eq(sender) {
            return Err(ClubError::Unauthorized);
        }
        let ghost t0 = self.bonds@;
        let mut i: usize = 0;
        while i < self.bonds.len()
            invariant
                i <= t0.len(),
                self.bonds@.len() == t0.len(),
                sorted_keys(self.bonds@),
                bonds_measurable(t0, now),
                forall|k: int| 0 <= k < t0.len() ==> #[trigger] self.bonds@[k].0 == t0[k].0,
                forall|k: int| 0 <= k < i ==> #[trigger] self.bonds@[k] == bonds_refunded(t0, now)[k],
                forall|k: int| i <= k < t0.len() ==> #[trigger] self.bonds@[k] == t0[k],
                self.same_but_bonds(old(self)),
            decreases t0.len() - i,
        {
            let l = self.bonds.val_at(i);
            let mut kept: Vec<ClubBondingDetails> = Vec::new();
            let mut j: usize = 0;
            while j < l.len()
                invariant
                    j <= l@.len(),
                    l@ == t0[i as int].1,
                    i < t0.len(),
                    bonds_measurable(t0, now),
                    kept@ == pending_bonds(l@.take(j as int), now),
                decreases l@.len() - j,
            {
                assert(l@.take(j + 1).drop_last() =~= l@.take(j as int));
                assert(minus_seconds_ok(now, t0[i as int].1[j as int].bonding_duration));
                if minus_seconds(now, l[j].bonding_duration) < l[j].bonding_start_timestamp {
                    kept.push(clone_bond(&l[j]));
                }
                j = j + 1;
            }
            assert(l@.take(l@.len() as int) =~= l@);
            let ghost before = self.bonds@;
            self.bonds.set_val_at(i, kept);
            proof {
                assert forall|a: int, b: int| 0 <= a < b < self.bonds@.len() implies crate::table::key_lt(
                    #[trigger] self.bonds@[a].0,
                    #[trigger] self.bonds@[b].0,
                ) by {
                    assert(self.bonds@[a].0 == before[a].0);
                    assert(self.bonds@[b].0 == before[b].0);
                }
            }
            i = i + 1;
        }
        assert(self.bonds@ =~= bonds_refunded(t0, now));
        Ok(Response::empty())
    }
}

} // verus!
