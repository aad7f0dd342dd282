//! Gaming pools: gamers bid teams into pools of a game, the admin locks,
//! cancels or settles the game, and gamers collect rewards and refunds.
use vstd::prelude::*;
use vstd::string::StringExecFns;
use crate::response::{Response, Msg, TokenCall, payout, payout_response, decimal, decimal_text};
use crate::table::{Table, lookup, saved, has_key, key_pos, sorted_keys};
use crate::amounts::{mul_or_zero, checked_mul_or_zero};

verus! {

pub const GAME_POOL_OPEN: u64 = 1;
pub const GAME_POOL_CLOSED: u64 = 2;
pub const GAME_CANCELLED: u64 = 3;
pub const GAME_COMPLETED: u64 = 4;

/// Points of a team that has not been ranked yet.
pub const INITIAL_TEAM_POINTS: u64 = 0;
/// Rank of a team that has not been ranked yet: below any pool size.
pub const INITIAL_TEAM_RANK: u64 = 100000;

#[derive(Debug, PartialEq, Eq)]
pub struct Config {
    pub admin_address: String,
    pub minting_contract_address: String,
    pub platform_fee: u128,
}

#[derive(Debug, PartialEq, Eq)]
pub struct GameDetails {
    pub game_id: String,
    pub game_status: u64,
}

#[derive(Debug, PartialEq, Eq)]
pub struct PoolDetails {
    pub game_id: String,
    pub pool_id: String,
    pub pool_type: String,
    pub current_teams_count: u32,
    pub rewards_distributed: bool,
}

#[derive(Debug, PartialEq, Eq)]
pub struct WalletPercentage {
    pub wallet_name: String,
    pub wallet_address: String,
    pub percentage: u32,
}

#[derive(Debug, PartialEq, Eq)]
pub struct PoolTypeDetails {
    pub pool_type: String,
    pub pool_fee: u128,
    pub min_teams_for_pool: u32,
    pub max_teams_for_pool: u32,
    pub max_teams_for_gamer: u32,
    pub rake_list: Vec<WalletPercentage>,
}

#[derive(Debug, PartialEq, Eq)]
pub struct PoolTeamDetails {
    pub gamer_address: String,
    pub game_id: String,
    pub pool_type: String,
    pub pool_id: String,
    pub team_id: String,
    pub reward_amount: u128,
    pub claimed_reward: bool,
    pub refund_amount: u128,
    pub claimed_refund: bool,
    pub team_points: u64,
    pub team_rank: u64,
}

#[derive(Debug, PartialEq, Eq)]
pub struct GameResult {
    pub gamer_address: String,
    pub game_id: String,
    pub team_id: String,
    pub team_rank: u64,
    pub team_points: u64,
    pub reward_amount: u128,
    pub refund_amount: u128,
}

#[derive(Debug, PartialEq, Eq)]
pub struct WalletTransferDetails {
    pub wallet_address: String,
    pub amount: u128,
}

impl View for GameDetails {
    type V = GameDetails;

    open spec fn view(&self) -> GameDetails {
        *self
    }
}

impl View for PoolDetails {
    type V = PoolDetails;

    open spec fn view(&self) -> PoolDetails {
        *self
    }
}

impl View for WalletPercentage {
    type V = WalletPercentage;

    open spec fn view(&self) -> WalletPercentage {
        *self
    }
}

impl View for PoolTypeDetails {
    type V = PoolTypeDetails;

    open spec fn view(&self) -> PoolTypeDetails {
        *self
    }
}

impl View for PoolTeamDetails {
    type V = PoolTeamDetails;

    open spec fn view(&self) -> PoolTeamDetails {
        *self
    }
}

#[derive(Debug, PartialEq, Eq)]
pub enum GameError {
    Unauthorized { invoker: String },
    /// "Game status cannot be retrieved"
    GameStatusUnavailable,
    /// "Cant cancel game as it is already over"
    CancelCompletedGame,
    /// "Cant cancel game as it is already cancelled"
    CancelCancelledGame,
    /// "No pool type details found for pool"
    NoPoolTypeForPool,
    /// "Cant lock this game as it is not open for bidding"
    LockNotOpenGame,
    /// "Game is not open for bidding"
    GameNotOpen,
    /// "Cant get details for pool type " (on a bid)
    BidPoolTypeUnknown,
    /// "Amount being bid does not match the pool fee and the platform fee"
    BidAmountMismatch,
    /// "User max team limit reached "
    UserMaxTeamLimit,
    /// "pool max team limit reached "
    PoolMaxTeamLimit,
    /// "No pool details found"
    NoPoolDetails,
    /// "No reward for this user"
    NoReward,
    /// "No refund for this user"
    NoRefund,
    /// "Rewards cant be distributed as game is cancelled"
    RewardsForCancelledGame,
    /// "Rewards cant be distributed as game not yet started"
    RewardsForOpenGame,
    /// "Rewards are already distributed for this pool"
    RewardsAlreadyDistributed,
    /// "Cant get details for pool type" (on a reward distribution)
    RewardPoolTypeUnknown,
    /// "reward amounts do not match"
    RewardAmountsMismatch,
    /// "No pool type details found"
    NoPoolTypeDetails,
    /// "No team details found"
    NoTeamDetails,
    /// "Game detail found"
    NoGameDetails,
    /// "Pool Team Details not found"
    TeamNotFound,
    /// The team list of a pool is not stored.
    TeamListNotFound,
    /// "No game result details found"
    NoGameResultDetails,
}

/// The contract's storage after instantiation.
pub struct GamingPool {
    pub config: Config,
    pub game_result_template: Option<GameResult>,
    pub pool_count: u128,
    pub games: Table<GameDetails>,
    pub pools: Table<PoolDetails>,
    pub pool_types: Table<PoolTypeDetails>,
    pub pool_teams: Table<Vec<PoolTeamDetails>>,
    pub platform_wallets: Table<WalletPercentage>,
    pub gaming_funds: Table<u128>,
}

pub fn clone_wallet(w: &WalletPercentage) -> (r: WalletPercentage)
    ensures
        r == *w,
{
    WalletPercentage {
        wallet_name: w.wallet_name.clone(),
        wallet_address: w.wallet_address.clone(),
        percentage: w.percentage,
    }
}

pub fn clone_wallets(ws: &Vec<WalletPercentage>) -> (r: Vec<WalletPercentage>)
    ensures
        r@ == ws@,
{
    let mut r: Vec<WalletPercentage> = Vec::new();
    let mut i: usize = 0;
    while i < ws.len()
        invariant
            i <= ws@.len(),
            r@ == ws@.take(i as int),
        decreases ws@.len() - i,
    {
        r.push(clone_wallet(&ws[i]));
        assert(ws@.take(i + 1) =~= ws@.take(i as int).push(ws@[i as int]));
        i = i + 1;
    }
    assert(ws@.take(ws@.len() as int) =~= ws@);
    r
}

pub fn clone_team(t: &PoolTeamDetails) -> (r: PoolTeamDetails)
    ensures
        r == *t,
{
    PoolTeamDetails {
        gamer_address: t.gamer_address.clone(),
        game_id: t.game_id.clone(),
        pool_type: t.pool_type.clone(),
        pool_id: t.pool_id.clone(),
        team_id: t.team_id.clone(),
        reward_amount: t.reward_amount,
        claimed_reward: t.claimed_reward,
        refund_amount: t.refund_amount,
        claimed_refund: t.claimed_refund,
        team_points: t.team_points,
        team_rank: t.team_rank,
    }
}

pub fn clone_pool(p: &PoolDetails) -> (r: PoolDetails)
    ensures
        r == *p,
{
    PoolDetails {
        game_id: p.game_id.clone(),
        pool_id: p.pool_id.clone(),
        pool_type: p.pool_type.clone(),
        current_teams_count: p.current_teams_count,
        rewards_distributed: p.rewards_distributed,
    }
}

pub fn clone_pool_type(p: &PoolTypeDetails) -> (r: PoolTypeDetails)
    ensures
        r.pool_type == p.pool_type,
        r.pool_fee == p.pool_fee,
        r.min_teams_for_pool == p.min_teams_for_pool,
        r.max_teams_for_pool == p.max_teams_for_pool,
        r.max_teams_for_gamer == p.max_teams_for_gamer,
        r.rake_list@ == p.rake_list@,
{
    PoolTypeDetails {
        pool_type: p.pool_type.clone(),
        pool_fee: p.pool_fee,
        min_teams_for_pool: p.min_teams_for_pool,
        max_teams_for_pool: p.max_teams_for_pool,
        max_teams_for_gamer: p.max_teams_for_gamer,
        rake_list: clone_wallets(&p.rake_list),
    }
}

pub fn clone_game(g: &GameDetails) -> (r: GameDetails)
    ensures
        r == *g,
{
    GameDetails { game_id: g.game_id.clone(), game_status: g.game_status }
}

/// The team list stored for a pool, or none.
pub open spec fn teams_of(s: Seq<(Seq<char>, Seq<PoolTeamDetails>)>, pool_id: Seq<char>) -> Seq<PoolTeamDetails> {
    match lookup(s, pool_id) {
        Some(l) => l,
        None => Seq::empty(),
    }
}

/// Number of teams of `gamer` in a list that belong to `game_id` and `pool_type`.
pub open spec fn team_count_in(l: Seq<PoolTeamDetails>, gamer: Seq<char>, game_id: Seq<char>, pool_type: Seq<char>) -> nat
    decreases l.len(),
{
    if l.len() == 0 {
        0
    } else {
        let t = l.last();
        team_count_in(l.drop_last(), gamer, game_id, pool_type) + if t.pool_type@ == pool_type
            && t.game_id@ == game_id && t.gamer_address@ == gamer {
            1nat
        } else {
            0nat
        }
    }
}

/// The same count over all stored team lists.
pub open spec fn team_count(s: Seq<(Seq<char>, Seq<PoolTeamDetails>)>, gamer: Seq<char>, game_id: Seq<char>, pool_type: Seq<char>) -> nat
    decreases s.len(),
{
    if s.len() == 0 {
        0
    } else {
        team_count(s.drop_last(), gamer, game_id, pool_type) + team_count_in(s.last().1, gamer, game_id, pool_type)
    }
}

impl GamingPool {
    pub open spec fn wf(&self) -> bool {
        &&& self.games.wf()
        &&& self.pools.wf()
        &&& self.pool_types.wf()
        &&& self.pool_teams.wf()
        &&& self.platform_wallets.wf()
        &&& self.gaming_funds.wf()
    }

    pub open spec fn is_admin(&self, sender: Seq<char>) -> bool {
        self.config.admin_address@ == sender
    }

    /// Sets up the contract with its admin, its token contract and the platform fee.
    pub fn instantiate(admin_address: String, minting_contract_address: String, platform_fee: u128) -> (s: Self)
        ensures
            s.wf(),
            s.config.admin_address == admin_address,
            s.config.minting_contract_address == minting_contract_address,
            s.config.platform_fee == platform_fee,
            s.pool_count == 0,
            s.games@.len() == 0,
            s.pools@.len() == 0,
            s.pool_types@.len() == 0,
            s.pool_teams@.len() == 0,
            s.platform_wallets@.len() == 0,
            s.gaming_funds@.len() == 0,
            s.game_result_template matches Some(g) && g.team_rank == INITIAL_TEAM_RANK
                && g.team_points == INITIAL_TEAM_POINTS && g.reward_amount == 0 && g.refund_amount == 0,
    {
        GamingPool {
            config: Config { admin_address, minting_contract_address, platform_fee },
            game_result_template: Some(
                GameResult {
                    gamer_address: String::from_str("terra1t3czdl5h4w4qwgkzs80fdstj0z7rfv9v2j6uh3"),
                    game_id: String::from_str("DUMMY_GAME_ID"),
                    team_id: String::from_str("DUMMY_TEAM_ID"),
                    team_rank: INITIAL_TEAM_RANK,
                    team_points: INITIAL_TEAM_POINTS,
                    reward_amount: 0,
                    refund_amount: 0,
                },
            ),
            pool_count: 0,
            games: Table::new(),
            pools: Table::new(),
            pool_types: Table::new(),
            pool_teams: Table::new(),
            platform_wallets: Table::new(),
            gaming_funds: Table::new(),
        }
    }
}

/// Platform wallets after saving each of `ws` under its name in turn.
pub open spec fn wallets_saved(s: Seq<(Seq<char>, WalletPercentage)>, ws: Seq<WalletPercentage>) -> Seq<(Seq<char>, WalletPercentage)>
    decreases ws.len(),
{
    if ws.len() == 0 {
        s
    } else {
        saved(wallets_saved(s, ws.drop_last()), ws.last().wallet_name@, ws.last())
    }
}

impl GamingPool {
    /// Admin only: records the platform fee wallets, each under its name.
    pub fn set_platform_fee_wallets(&mut self, sender: &String, wallet_percentages: Vec<WalletPercentage>) -> (r: Result<Response, GameError>)
        requires
            old(self).wf(),
        ensures
            final(self).wf(),
            !old(self).is_admin(sender@) ==> r == Err::<Response, GameError>(GameError::Unauthorized { invoker: *sender })
                && *final(self) == *old(self),
            old(self).is_admin(sender@) ==> (r matches Ok(resp) && resp.messages@.len() == 0
                && resp.attrs().len() == 0 && resp.data.is_none()
                && final(self).platform_wallets@ == wallets_saved(old(self).platform_wallets@, wallet_percentages@)
                && final(self).config == old(self).config
                && final(self).game_result_template == old(self).game_result_template
                && final(self).pool_count == old(self).pool_count
                && final(self).games == old(self).games
                && final(self).pools == old(self).pools
                && final(self).pool_types == old(self).pool_types
                && final(self).pool_teams == old(self).pool_teams
                && final(self).gaming_funds == old(self).gaming_funds),
    {
        if !self.config.admin_address.eq(sender) {
            return Err(GameError::Unauthorized { invoker: sender.clone() });
        }
        let mut i: usize = 0;
        while i < wallet_percentages.len()
            invariant
                i <= wallet_percentages@.len(),
                self.platform_wallets.wf(),
                self.platform_wallets@ == wallets_saved(old(self).platform_wallets@, wallet_percentages@.take(i as int)),
                self.config == old(self).config,
                self.game_result_template == old(self).game_result_template,
                self.pool_count == old(self).pool_count,
                self.games == old(self).games,
                self.pools == old(self).pools,
                self.pool_types == old(self).pool_types,
                self.pool_teams == old(self).pool_teams,
                self.gaming_funds == old(self).gaming_funds,
            decreases wallet_percentages@.len() - i,
        {
            let wp = clone_wallet(&wallet_percentages[i]);
            let name = wp.wallet_name.clone();
            self.platform_wallets.save(name, wp);
            assert(wallet_percentages@.take(i + 1).drop_last() =~= wallet_percentages@.take(i as int));
            i = i + 1;
        }
        assert(wallet_percentages@.take(wallet_percentages@.len() as int) =~= wallet_percentages@);
        Ok(Response::empty())
    }
}


impl GamingPool {
    /// Everything but the pool types is as before.
    pub open spec fn same_but_pool_types(&self, o: &Self) -> bool {
        &&& self.config == o.config
        &&& self.game_result_template == o.game_result_template
        &&& self.pool_count == o.pool_count
        &&& self.games == o.games
        &&& self.pools == o.pools
        &&& self.pool_teams == o.pool_teams
        &&& self.platform_wallets == o.platform_wallets
        &&& self.gaming_funds == o.gaming_funds
    }

    /// Admin only: stores the parameters of a pool type under its name.
    pub fn set_pool_type_params(
        &mut self,
        sender: &String,
        pool_type: String,
        pool_fee: u128,
        min_teams_for_pool: u32,
        max_teams_for_pool: u32,
        max_teams_for_gamer: u32,
        wallet_percentages: Vec<WalletPercentage>,
    ) -> (r: Result<Response, GameError>)
        requires
            old(self).wf(),
        ensures
            final(self).wf(),
            !old(self).is_admin(sender@) ==> r == Err::<Response, GameError>(GameError::Unauthorized { invoker: *sender })
                && *final(self) == *old(self),
            old(self).is_admin(sender@) ==> (r matches Ok(resp) && resp.messages@.len() == 0
                && resp.attrs().len() == 0 && resp.data.is_none()
                && final(self).same_but_pool_types(old(self))
                && final(self).pool_types@ == saved(
                old(self).pool_types@,
                pool_type@,
                PoolTypeDetails {
                    pool_type,
                    pool_fee,
                    min_teams_for_pool,
                    max_teams_for_pool,
                    max_teams_for_gamer,
                    rake_list: wallet_percentages,
                },
            )),
    {
        if !self.config.admin_address.eq(sender) {
            return Err(GameError::Unauthorized { invoker: sender.clone() });
        }
        let key = pool_type.clone();
        self.pool_types.save(
            key,
            PoolTypeDetails {
                pool_type,
                pool_fee,
                min_teams_for_pool,
                max_teams_for_pool,
                max_teams_for_gamer,
                rake_list: wallet_percentages,
            },
        );
        Ok(Response::empty())
    }

    /// Everything but the games is as before.
    pub open spec fn same_but_games(&self, o: &Self) -> bool {
        &&& self.config == o.config
        &&& self.game_result_template == o.game_result_template
        &&& self.pool_count == o.pool_count
        &&& self.pools == o.pools
        &&& self.pool_types == o.pool_types
        &&& self.pool_teams == o.pool_teams
        &&& self.platform_wallets == o.platform_wallets
        &&& self.gaming_funds == o.gaming_funds
    }

    /// Admin only: opens a game for bidding.
    pub fn create_game(&mut self, sender: &String, game_id: String) -> (r: Result<Response, GameError>)
        requires
            old(self).wf(),
        ensures
            final(self).wf(),
            !old(self).is_admin(sender@) ==> r == Err::<Response, GameError>(GameError::Unauthorized { invoker: *sender })
                && *final(self) == *old(self),
            old(self).is_admin(sender@) ==> (r matches Ok(resp) && resp.messages@.len() == 0
                && resp.attrs() == seq![("game_id"@, game_id@), ("game_status"@, "GAME_POOL_OPEN"@)]
                && resp.data.is_none()
                && final(self).same_but_games(old(self))
                && final(self).games@ == saved(old(self).games@, game_id@, GameDetails { game_id, game_status: GAME_POOL_OPEN })),
    {
        if !self.config.admin_address.eq(sender) {
            return Err(GameError::Unauthorized { invoker: sender.clone() });
        }
        let key = game_id.clone();
        let attr_id = game_id.clone();
        self.games.save(key, GameDetails { game_id, game_status: GAME_POOL_OPEN });
        let mut resp = Response::empty();
        resp.add_attr("game_id", attr_id);
        resp.add_attr("game_status", String::from_str("GAME_POOL_OPEN"));
        Ok(resp)
    }

    /// Everything but the pools and the pool counter is as before.
    pub open spec fn same_but_pools(&self, o: &Self) -> bool {
        &&& self.config == o.config
        &&& self.game_result_template == o.game_result_template
        &&& self.games == o.games
        &&& self.pool_types == o.pool_types
        &&& self.pool_teams == o.pool_teams
        &&& self.platform_wallets == o.platform_wallets
        &&& self.gaming_funds == o.gaming_funds
    }

    /// Admin only: opens a new pool of a type in an open game; pools are
    /// numbered 1, 2, ... across the contract, and the number is the pool's id.
    pub fn create_pool(&mut self, sender: &String, game_id: String, pool_type: String) -> (r: Result<Response, GameError>)
        requires
            old(self).wf(),
            old(self).is_admin(sender@) && game_status(old(self).games@, game_id@) == Some(GAME_POOL_OPEN)
                ==> old(self).pool_count < u128::MAX,
        ensures
            final(self).wf(),
            !old(self).is_admin(sender@) ==> r == Err::<Response, GameError>(GameError::Unauthorized { invoker: *sender })
                && *final(self) == *old(self),
            old(self).is_admin(sender@) && lookup(old(self).games@, game_id@).is_none() ==> r == Err::<Response, GameError>(
                GameError::GameStatusUnavailable,
            ) && *final(self) == *old(self),
            old(self).is_admin(sender@) && game_status(old(self).games@, game_id@).is_some()
                && game_status(old(self).games@, game_id@) != Some(GAME_POOL_OPEN)
                ==> r == Err::<Response, GameError>(GameError::GameNotOpen) && *final(self) == *old(self),
            old(self).is_admin(sender@) && game_status(old(self).games@, game_id@) == Some(GAME_POOL_OPEN)
                ==> (r matches Ok(resp) && resp.messages@.len() == 0
                && resp.attrs() == seq![("pool_id"@, decimal_text((old(self).pool_count + 1) as nat))]
                && resp.data.is_none()
                && final(self).same_but_pools(old(self))
                && final(self).pool_count == old(self).pool_count + 1
                && exists|pool_id: String|
                    pool_id@ == decimal_text((old(self).pool_count + 1) as nat) && final(self).pools@ == saved(
                        old(self).pools@,
                        pool_id@,
                        PoolDetails {
                            game_id,
                            pool_id,
                            pool_type,
                            current_teams_count: 0,
                            rewards_distributed: false,
                        },
                    )),
    {
        if !self.config.admin_address.eq(sender) {
            return Err(GameError::Unauthorized { invoker: sender.clone() });
        }
        match self.games.get(&game_id) {
            None => {
                return Err(GameError::GameStatusUnavailable);
            },
            Some(g) => {
                if g.game_status != GAME_POOL_OPEN {
                    return Err(GameError::GameNotOpen);
                }
            },
        }
        let count = self.pool_count + 1;
        self.pool_count = count;
        let pool_id = decimal(count);
        let key = pool_id.clone();
        let attr_id = pool_id.clone();
        let ghost pid = pool_id;
        self.pools.save(
            key,
            PoolDetails { game_id, pool_id, pool_type, current_teams_count: 0, rewards_distributed: false },
        );
        let mut resp = Response::empty();
        resp.add_attr("pool_id", attr_id);
        Ok(resp)
    }

    /// The details of a pool type.
    pub fn query_pool_type_details(&self, pool_type: &String) -> (r: Result<PoolTypeDetails, GameError>)
        requires
            self.wf(),
        ensures
            match lookup(self.pool_types@, pool_type@) {
                None => r == Err::<PoolTypeDetails, GameError>(GameError::NoPoolTypeDetails),
                Some(p) => r matches Ok(q) && q.pool_type == p.pool_type && q.pool_fee == p.pool_fee
                    && q.min_teams_for_pool == p.min_teams_for_pool && q.max_teams_for_pool == p.max_teams_for_pool
                    && q.max_teams_for_gamer == p.max_teams_for_gamer && q.rake_list@ == p.rake_list@,
            },
    {
        match self.pool_types.get(pool_type) {
            Some(p) => Ok(clone_pool_type(p)),
            None => Err(GameError::NoPoolTypeDetails),
        }
    }

    /// The teams stored for a pool.
    pub fn query_pool_team_details(&self, pool_id: &String) -> (r: Result<Vec<PoolTeamDetails>, GameError>)
        requires
            self.wf(),
        ensures
            match lookup(self.pool_teams@, pool_id@) {
                None => r == Err::<Vec<PoolTeamDetails>, GameError>(GameError::NoTeamDetails),
                Some(l) => r matches Ok(v) && v@ == l,
            },
    {
        match self.pool_teams.get(pool_id) {
            Some(l) => Ok(clone_teams(l)),
            None => Err(GameError::NoTeamDetails),
        }
    }

    /// The details of a pool.
    pub fn query_pool_details(&self, pool_id: &String) -> (r: Result<PoolDetails, GameError>)
        requires
            self.wf(),
        ensures
            match lookup(self.pools@, pool_id@) {
                None => r == Err::<PoolDetails, GameError>(GameError::NoPoolDetails),
                Some(p) => r == Ok::<PoolDetails, GameError>(p),
            },
    {
        match self.pools.get(pool_id) {
            Some(p) => Ok(clone_pool(p)),
            None => Err(GameError::NoPoolDetails),
        }
    }

    /// The details of a game.
    pub fn query_game_details(&self, game_id: &String) -> (r: Result<GameDetails, GameError>)
        requires
            self.wf(),
        ensures
            match lookup(self.games@, game_id@) {
                None => r == Err::<GameDetails, GameError>(GameError::NoGameDetails),
                Some(g) => r == Ok::<GameDetails, GameError>(g),
            },
    {
        match self.games.get(game_id) {
            Some(g) => Ok(clone_game(g)),
            None => Err(GameError::NoGameDetails),
        }
    }

    /// The first team of a pool with the given team id.
    pub fn query_team_details(&self, pool_id: &String, team_id: &String) -> (r: Result<PoolTeamDetails, GameError>)
        requires
            self.wf(),
        ensures
            match lookup(self.pool_teams@, pool_id@) {
                None => r == Err::<PoolTeamDetails, GameError>(GameError::TeamListNotFound),
                Some(l) => match first_team_with_id(l, team_id@) {
                    Some(i) => r == Ok::<PoolTeamDetails, GameError>(l[i]),
                    None => r == Err::<PoolTeamDetails, GameError>(GameError::TeamNotFound),
                },
            },
    {
        match self.pool_teams.get(pool_id) {
            None => Err(GameError::TeamListNotFound),
            Some(l) => {
                let mut i: usize = 0;
                while i < l.len()
                    invariant
                        i <= l@.len(),
                        lookup(self.pool_teams@, pool_id@) == Some(l@),
                        forall|j: int| 0 <= j < i ==> #[trigger] l@[j].team_id@ != team_id@,
                    decreases l@.len() - i,
                {
                    if l[i].team_id.eq(team_id) {
                        proof {
                            lemma_first_team_with_id(l@, team_id@, i as int);
                        }
                        return Ok(clone_team(&l[i]));
                    }
                    i = i + 1;
                }
                proof {
                    lemma_no_team_with_id(l@, team_id@);
                }
                Err(GameError::TeamNotFound)
            },
        }
    }

    /// What a pool has collected in pool fees: fee times team count, or 0 if that overflows.
    pub fn query_pool_collection(&self, pool_id: &String) -> (r: Result<u128, GameError>)
        requires
            self.wf(),
        ensures
            match lookup(self.pools@, pool_id@) {
                None => r == Err::<u128, GameError>(GameError::NoPoolDetails),
                Some(p) => match lookup(self.pool_types@, p.pool_type@) {
                    None => r == Err::<u128, GameError>(GameError::NoPoolTypeDetails),
                    Some(t) => r == Ok::<u128, GameError>(mul_or_zero(t.pool_fee, p.current_teams_count as u128)),
                },
            },
    {
        match self.pools.get(pool_id) {
            None => Err(GameError::NoPoolDetails),
            Some(p) => match self.pool_types.get(&p.pool_type) {
                None => Err(GameError::NoPoolTypeDetails),
                Some(t) => Ok(checked_mul_or_zero(t.pool_fee, p.current_teams_count as u128)),
            },
        }
    }

    /// The pools of a game, in pool id order.
    pub fn query_all_pools_in_game(&self, game_id: &String) -> (r: Vec<PoolDetails>)
        requires
            self.wf(),
        ensures
            r@ == pools_of_game(self.pools@, game_id@),
    {
        let mut r: Vec<PoolDetails> = Vec::new();
        let mut i: usize = 0;
        while i < self.pools.len()
            invariant
                i <= self.pools@.len(),
                r@ == pools_of_game(self.pools@.take(i as int), game_id@),
            decreases self.pools@.len() - i,
        {
            let p = self.pools.val_at(i);
            assert(self.pools@.take(i + 1).drop_last() =~= self.pools@.take(i as int));
            if p.game_id.eq(game_id) {
                r.push(clone_pool(p));
            }
            i = i + 1;
        }
        assert(self.pools@.take(self.pools@.len() as int) =~= self.pools@);
        r
    }
}

/// The status of a game, if it exists.
pub open spec fn game_status(s: Seq<(Seq<char>, GameDetails)>, game_id: Seq<char>) -> Option<u64> {
    match lookup(s, game_id) {
        Some(g) => Some(g.game_status),
        None => None,
    }
}

/// Pools of a game, in table order.
pub open spec fn pools_of_game(s: Seq<(Seq<char>, PoolDetails)>, game_id: Seq<char>) -> Seq<PoolDetails>
    decreases s.len(),
{
    if s.len() == 0 {
        Seq::empty()
    } else {
        let rest = pools_of_game(s.drop_last(), game_id);
        if s.last().1.game_id@ == game_id {
            rest.push(s.last().1)
        } else {
            rest
        }
    }
}

/// The index of the first team with id `team_id`.
pub open spec fn first_team_with_id(l: Seq<PoolTeamDetails>, team_id: Seq<char>) -> Option<int> {
    if exists|i: int| 0 <= i < l.len() && #[trigger] l[i].team_id@ == team_id {
        Some(
            choose|i: int|
                0 <= i < l.len() && #[trigger] l[i].team_id@ == team_id && forall|j: int|
                    0 <= j < i ==> #[trigger] l[j].team_id@ != team_id,
        )
    } else {
        None
    }
}

proof fn lemma_first_team_with_id(l: Seq<PoolTeamDetails>, team_id: Seq<char>, i: int)
    requires
        0 <= i < l.len(),
        l[i].team_id@ == team_id,
        forall|j: int| 0 <= j < i ==> #[trigger] l[j].team_id@ != team_id,
    ensures
        first_team_with_id(l, team_id) == Some(i),
{
    assert(exists|i: int| 0 <= i < l.len() && #[trigger] l[i].team_id@ == team_id);
    let k = choose|k: int|
        0 <= k < l.len() && #[trigger] l[k].team_id@ == team_id && forall|j: int|
            0 <= j < k ==> #[trigger] l[j].team_id@ != team_id;
    assert(0 <= k < l.len() && l[k].team_id@ == team_id && forall|j: int|
            0 <= j < k ==> #[trigger] l[j].team_id@ != team_id);
    if k < i {
        assert(l[k].team_id@ != team_id);
    } else if k > i {
        assert(l[i].team_id@ != team_id);
    }
}

proof fn lemma_no_team_with_id(l: Seq<PoolTeamDetails>, team_id: Seq<char>)
    requires
        forall|j: int| 0 <= j < l.len() ==> #[trigger] l[j].team_id@ != team_id,
    ensures
        first_team_with_id(l, team_id).is_none(),
{
}

pub fn clone_teams(l: &Vec<PoolTeamDetails>) -> (r: Vec<PoolTeamDetails>)
    ensures
        r@ == l@,
{
    let mut r: Vec<PoolTeamDetails> = Vec::new();
    let mut i: usize = 0;
    while i < l.len()
        invariant
            i <= l@.len(),
            r@ == l@.take(i as int),
        decreases l@.len() - i,
    {
        r.push(clone_team(&l[i]));
        assert(l@.take(i + 1) =~= l@.take(i as int).push(l@[i as int]));
        i = i + 1;
    }
    assert(l@.take(l@.len() as int) =~= l@);
    r
}


/// Team counts grow along prefixes.
pub proof fn lemma_team_count_in_prefix(l: Seq<PoolTeamDetails>, j: int, gamer: Seq<char>, game_id: Seq<char>, pool_type: Seq<char>)
    requires
        0 <= j <= l.len(),
    ensures
        team_count_in(l.take(j), gamer, game_id, pool_type) <= team_count_in(l, gamer, game_id, pool_type),
    decreases l.len(),
{
    if j < l.len() {
        assert(l.drop_last().take(j) =~= l.take(j));
        lemma_team_count_in_prefix(l.drop_last(), j, gamer, game_id, pool_type);
    } else {
        assert(l.take(j) =~= l);
    }
}

pub proof fn lemma_team_count_prefix(s: Seq<(Seq<char>, Seq<PoolTeamDetails>)>, i: int, gamer: Seq<char>, game_id: Seq<char>, pool_type: Seq<char>)
    requires
        0 <= i <= s.len(),
    ensures
        team_count(s.take(i), gamer, game_id, pool_type) <= team_count(s, gamer, game_id, pool_type),
    decreases s.len(),
{
    if i < s.len() {
        assert(s.drop_last().take(i) =~= s.take(i));
        lemma_team_count_prefix(s.drop_last(), i, gamer, game_id, pool_type);
    } else {
        assert(s.take(i) =~= s);
    }
}

impl GamingPool {
    /// How many teams `gamer` has in pools of `pool_type` of game `game_id`, over all stored team lists.
    pub fn get_team_count_for_user_in_pool_type(&self, gamer: &String, game_id: &String, pool_type: &String) -> (r: u32)
        requires
            self.wf(),
            team_count(self.pool_teams@, gamer@, game_id@, pool_type@) <= u32::MAX,
        ensures
            r == team_count(self.pool_teams@, gamer@, game_id@, pool_type@),
    {
        let ghost s = self.pool_teams@;
        let mut count: u32 = 0;
        let mut i: usize = 0;
        while i < self.pool_teams.len()
            invariant
                s == self.pool_teams@,
                i <= s.len(),
                count == team_count(s.take(i as int), gamer@, game_id@, pool_type@),
                team_count(s, gamer@, game_id@, pool_type@) <= u32::MAX,
            decreases s.len() - i,
        {
            let l = self.pool_teams.val_at(i);
            let ghost base = team_count(s.take(i as int), gamer@, game_id@, pool_type@);
            proof {
                assert(s.take(i + 1).drop_last() =~= s.take(i as int));
                lemma_team_count_prefix(s, i + 1, gamer@, game_id@, pool_type@);
            }
            let mut j: usize = 0;
            while j < l.len()
                invariant
                    l@ == s[i as int].1,
                    j <= l@.len(),
                    i < s.len(),
                    count == base + team_count_in(l@.take(j as int), gamer@, game_id@, pool_type@),
                    base + team_count_in(l@, gamer@, game_id@, pool_type@) <= u32::MAX,
                decreases l@.len() - j,
            {
                let t = &l[j];
                proof {
                    assert(l@.take(j + 1).drop_last() =~= l@.take(j as int));
                    lemma_team_count_in_prefix(l@, j + 1, gamer@, game_id@, pool_type@);
                }
                if t.pool_type.eq(pool_type) && t.game_id.eq(game_id) && t.gamer_address.eq(gamer) {
                    count = count + 1;
                }
                j = j + 1;
            }
            assert(l@.take(l@.len() as int) =~= l@);
            i = i + 1;
        }
        assert(s.take(s.len() as int) =~= s);
        count
    }
}

impl GamingPool {
    /// How many teams `gamer` has in pools of `pool_type` of game `game_id`;
    /// none where the count does not fit a `u32`.
    fn team_count_checked(&self, gamer: &String, game_id: &String, pool_type: &String) -> (r: Option<u32>)
        requires
            self.wf(),
        ensures
            match r {
                Some(x) => x == team_count(self.pool_teams@, gamer@, game_id@, pool_type@),
                None => team_count(self.pool_teams@, gamer@, game_id@, pool_type@) > u32::MAX,
            },
    {
        let ghost s = self.pool_teams@;
        let mut count: u32 = 0;
        let mut i: usize = 0;
        while i < self.pool_teams.len()
            invariant
                s == self.pool_teams@,
                i <= s.len(),
                count == team_count(s.take(i as int), gamer@, game_id@, pool_type@),
            decreases s.len() - i,
        {
            let l = self.pool_teams.val_at(i);
            let ghost base = team_count(s.take(i as int), gamer@, game_id@, pool_type@);
            proof {
                assert(s.take(i + 1).drop_last() =~= s.take(i as int));
                lemma_team_count_prefix(s, i + 1, gamer@, game_id@, pool_type@);
            }
            let mut j: usize = 0;
            while j < l.len()
                invariant
                    l@ == s[i as int].1,
                    j <= l@.len(),
                    i < s.len(),
                    s == self.pool_teams@,
                    count == base + team_count_in(l@.take(j as int), gamer@, game_id@, pool_type@),
                    base + team_count_in(l@, gamer@, game_id@, pool_type@) == team_count(s.take(i + 1), gamer@, game_id@, pool_type@),
                    team_count(s.take(i + 1), gamer@, game_id@, pool_type@) <= team_count(s, gamer@, game_id@, pool_type@),
                decreases l@.len() - j,
            {
                let t = &l[j];
                proof {
                    assert(l@.take(j + 1).drop_last() =~= l@.take(j as int));
                    lemma_team_count_in_prefix(l@, j + 1, gamer@, game_id@, pool_type@);
                }
                if t.pool_type.eq(pool_type) && t.game_id.eq(game_id) && t.gamer_address.eq(gamer) {
                    match count.checked_add(1) {
                        Some(c) => {
                            count = c;
                        },
                        None => {
                            return None;
                        },
                    }
                }
                j = j + 1;
            }
            assert(l@.take(l@.len() as int) =~= l@);
            i = i + 1;
        }
        assert(s.take(s.len() as int) =~= s);
        Some(count)
    }

    /// The refusals of a bid that come before the gamer's address is looked
    /// at: a sender other than the token contract, an unknown game, a game
    /// not open for bidding.
    pub open spec fn bid_opening_error(&self, sender: String, game_id: Seq<char>) -> Option<GameError> {
        if self.config.minting_contract_address@ != sender@ {
            Some(GameError::Unauthorized { invoker: sender })
        } else if game_status(self.games@, game_id).is_none() {
            Some(GameError::GameStatusUnavailable)
        } else if game_status(self.games@, game_id) != Some(GAME_POOL_OPEN) {
            Some(GameError::GameNotOpen)
        } else {
            None
        }
    }

    /// The refusal of a bid, if any, that comes before the gamer's address is
    /// looked at.
    pub fn bid_opening_refusal(&self, sender: &String, game_id: &String) -> (r: Option<GameError>)
        requires
            self.wf(),
        ensures
            r == self.bid_opening_error(*sender, game_id@),
    {
        if !self.config.minting_contract_address.eq(sender) {
            return Some(GameError::Unauthorized { invoker: sender.clone() });
        }
        match self.games.get(game_id) {
            None => Some(GameError::GameStatusUnavailable),
            Some(g) => if g.game_status != GAME_POOL_OPEN {
                Some(GameError::GameNotOpen)
            } else {
                None
            },
        }
    }

    /// Whether a bid runs without arithmetic overflow, as the bid itself needs.
    pub fn bid_ready(&self, sender: &String, gamer: &String, pool_type: &String, pool_id: &String, game_id: &String) -> (r: bool)
        requires
            self.wf(),
        ensures
            r == self.bid_panic_free(sender@, gamer@, pool_type@, pool_id@, game_id@),
    {
        if !self.config.minting_contract_address.eq(sender) {
            return true;
        }
        match self.games.get(game_id) {
            None => {
                return true;
            },
            Some(g) => {
                if g.game_status != GAME_POOL_OPEN {
                    return true;
                }
            },
        }
        let fee = match self.pool_types.get(pool_type) {
            None => {
                return true;
            },
            Some(t) => t.pool_fee,
        };
        if fee.checked_add(self.config.platform_fee).is_none() {
            return false;
        }
        if self.team_count_checked(gamer, game_id, pool_type).is_none() {
            return false;
        }
        let balance = match self.gaming_funds.get(gamer) {
            Some(b) => *b,
            None => 0,
        };
        balance.checked_add(fee).is_some()
    }
}

/// The balance stored for a wallet, 0 if none.
pub open spec fn balance_of(s: Seq<(Seq<char>, u128)>, who: Seq<char>) -> u128 {
    match lookup(s, who) {
        Some(b) => b,
        None => 0,
    }
}

/// The team a bid adds.
pub open spec fn new_team(gamer: String, pool_type: String, pool_id: String, game_id: String, team_id: String) -> PoolTeamDetails {
    PoolTeamDetails {
        gamer_address: gamer,
        game_id,
        pool_type,
        pool_id,
        team_id,
        reward_amount: 0,
        claimed_reward: false,
        refund_amount: 0,
        claimed_refund: false,
        team_points: INITIAL_TEAM_POINTS,
        team_rank: INITIAL_TEAM_RANK,
    }
}

impl GamingPool {
    /// The first check a bid fails, in the order the contract makes them.
    pub open spec fn bid_error(&self, sender: String, gamer: Seq<char>, pool_type: Seq<char>, pool_id: Seq<char>, game_id: Seq<char>, amount: u128) -> Option<GameError> {
        if self.bid_opening_error(sender, game_id) is Some {
            self.bid_opening_error(sender, game_id)
        } else if lookup(self.pool_types@, pool_type).is_none() {
            Some(GameError::BidPoolTypeUnknown)
        } else {
            let t = lookup(self.pool_types@, pool_type).unwrap();
            if amount != t.pool_fee + self.config.platform_fee {
                Some(GameError::BidAmountMismatch)
            } else if team_count(self.pool_teams@, gamer, game_id, pool_type) >= t.max_teams_for_gamer {
                Some(GameError::UserMaxTeamLimit)
            } else if lookup(self.pools@, pool_id).is_none() {
                Some(GameError::NoPoolDetails)
            } else if lookup(self.pools@, pool_id).unwrap().current_teams_count >= t.max_teams_for_pool {
                Some(GameError::PoolMaxTeamLimit)
            } else {
                None
            }
        }
    }

    /// The bid runs without arithmetic overflow.
    pub open spec fn bid_panic_free(&self, sender: Seq<char>, gamer: Seq<char>, pool_type: Seq<char>, pool_id: Seq<char>, game_id: Seq<char>) -> bool {
        self.config.minting_contract_address@ == sender && game_status(self.games@, game_id) == Some(GAME_POOL_OPEN)
            && lookup(self.pool_types@, pool_type).is_some() ==> {
            let t = lookup(self.pool_types@, pool_type).unwrap();
            &&& t.pool_fee + self.config.platform_fee <= u128::MAX
            &&& team_count(self.pool_teams@, gamer, game_id, pool_type) <= u32::MAX
            &&& balance_of(self.gaming_funds@, gamer) + t.pool_fee <= u128::MAX
        }
    }

    /// Everything but pools, team lists and gaming funds is as before.
    pub open spec fn same_but_bids(&self, o: &Self) -> bool {
        &&& self.config == o.config
        &&& self.game_result_template == o.game_result_template
        &&& self.pool_count == o.pool_count
        &&& self.games == o.games
        &&& self.pool_types == o.pool_types
        &&& self.platform_wallets == o.platform_wallets
    }

    /// Adds a team to a pool's team list.
    pub fn save_team_details(
        &mut self,
        gamer: String,
        pool_id: String,
        team_id: String,
        game_id: String,
        pool_type: String,
        reward_amount: u128,
        claimed_reward: bool,
        refund_amount: u128,
        claimed_refund: bool,
        team_points: u64,
        team_rank: u64,
    ) -> (r: Result<Response, GameError>)
        requires
            old(self).wf(),
        ensures
            final(self).wf(),
            r matches Ok(resp) && resp.messages@.len() == 0 && resp.attrs() == seq![("team_id"@, team_id@)]
                && resp.data.is_none(),
            final(self).same_but_bids(old(self)),
            final(self).pools == old(self).pools,
            final(self).gaming_funds == old(self).gaming_funds,
            final(self).pool_teams@ == saved(
                old(self).pool_teams@,
                pool_id@,
                teams_of(old(self).pool_teams@, pool_id@).push(
                    PoolTeamDetails {
                        gamer_address: gamer,
                        game_id,
                        pool_type,
                        pool_id,
                        team_id,
                        reward_amount,
                        claimed_reward,
                        refund_amount,
                        claimed_refund,
                        team_points,
                        team_rank,
                    },
                ),
            ),
    {
        let mut teams = match self.pool_teams.get(&pool_id) {
            Some(l) => clone_teams(l),
            None => Vec::new(),
        };
        assert(teams@ =~= teams_of(self.pool_teams@, pool_id@));
        let attr_team = team_id.clone();
        teams.push(
            PoolTeamDetails {
                gamer_address: gamer,
                game_id,
                pool_type,
                pool_id: pool_id.clone(),
                team_id,
                reward_amount,
                claimed_reward,
                refund_amount,
                claimed_refund,
                team_points,
                team_rank,
            },
        );
        self.pool_teams.save(pool_id, teams);
        let mut resp = Response::empty();
        resp.add_attr("team_id", attr_team);
        assert(resp.attrs() =~= seq![("team_id"@, team_id@)]);
        Ok(resp)
    }

    /// What a bid does: the first failed check's error with nothing changed,
    /// or the team added to its pool, and the pool fee booked to the gamer.
    pub open spec fn bid_outcome(
        &self,
        after: &Self,
        r: Result<Response, GameError>,
        sender: String,
        gamer: String,
        pool_type: String,
        pool_id: String,
        game_id: String,
        team_id: String,
        amount: u128,
    ) -> bool {
        &&& (self.bid_error(sender, gamer@, pool_type@, pool_id@, game_id@, amount) matches Some(e) ==> r
            == Err::<Response, GameError>(e) && *after == *self)
        &&& self.bid_error(sender, gamer@, pool_type@, pool_id@, game_id@, amount).is_none() ==> ({
                let t = lookup(self.pool_types@, pool_type@).unwrap();
                let p = lookup(self.pools@, pool_id@).unwrap();
                &&& r matches Ok(resp) && resp.messages@.len() == 0 && resp.attrs() == seq![("pool_id"@, pool_id@)]
                    && resp.data.is_none()
                &&& after.same_but_bids(self)
                &&& after.pools@ == saved(
                    self.pools@,
                    pool_id@,
                    PoolDetails {
                        pool_type,
                        pool_id,
                        game_id: p.game_id,
                        current_teams_count: (p.current_teams_count + 1) as u32,
                        rewards_distributed: p.rewards_distributed,
                    },
                )
                &&& after.pool_teams@ == saved(
                    self.pool_teams@,
                    pool_id@,
                    teams_of(self.pool_teams@, pool_id@).push(new_team(gamer, pool_type, pool_id, game_id, team_id)),
                )
                &&& after.gaming_funds@ == saved(
                    self.gaming_funds@,
                    gamer@,
                    (balance_of(self.gaming_funds@, gamer@) + t.pool_fee) as u128,
                )
            })
    }

    /// From the token contract only: a gamer's bid of `amount` tokens for a
    /// team in a pool. The amount must be the pool fee plus the platform fee;
    /// the pool fee is booked to the gamer's gaming funds.
    pub fn game_pool_bid_submit(
        &mut self,
        sender: &String,
        gamer: String,
        pool_type: String,
        pool_id: String,
        game_id: String,
        team_id: String,
        amount: u128,
    ) -> (r: Result<Response, GameError>)
        requires
            old(self).wf(),
            old(self).bid_panic_free(sender@, gamer@, pool_type@, pool_id@, game_id@),
        ensures
            final(self).wf(),
            old(self).bid_outcome(final(self), r, *sender, gamer, pool_type, pool_id, game_id, team_id, amount),
    {
        if !self.config.minting_contract_address.eq(sender) {
            return Err(GameError::Unauthorized { invoker: sender.clone() });
        }
        match self.games.get(&game_id) {
            None => {
                return Err(GameError::GameStatusUnavailable);
            },
            Some(g) => {
                if g.game_status != GAME_POOL_OPEN {
                    return Err(GameError::GameNotOpen);
                }
            },
        }
        let (pool_fee, max_teams_for_pool, max_teams_for_gamer) = match self.pool_types.get(&pool_type) {
            None => {
                return Err(GameError::BidPoolTypeUnknown);
            },
            Some(t) => (t.pool_fee, t.max_teams_for_pool, t.max_teams_for_gamer),
        };
        if amount != pool_fee + self.config.platform_fee {
            return Err(GameError::BidAmountMismatch);
        }
        let user_team_count = self.get_team_count_for_user_in_pool_type(&gamer, &game_id, &pool_type);
        if user_team_count >= max_teams_for_gamer {
            return Err(GameError::UserMaxTeamLimit);
        }
        let (pool_game_id, count, distributed) = match self.pools.get(&pool_id) {
            None => {
                return Err(GameError::NoPoolDetails);
            },
            Some(p) => (p.game_id.clone(), p.current_teams_count, p.rewards_distributed),
        };
        if count >= max_teams_for_pool {
            return Err(GameError::PoolMaxTeamLimit);
        }
        let ghost old_teams = teams_of(self.pool_teams@, pool_id@);
        self.pools.save(
            pool_id.clone(),
            PoolDetails {
                pool_type: pool_type.clone(),
                pool_id: pool_id.clone(),
                game_id: pool_game_id,
                current_teams_count: count + 1,
                rewards_distributed: distributed,
            },
        );
        let mut teams = match self.pool_teams.get(&pool_id) {
            Some(l) => clone_teams(l),
            None => Vec::new(),
        };
        assert(teams@ == old_teams);
        let attr_id = pool_id.clone();
        teams.push(
            PoolTeamDetails {
                gamer_address: gamer.clone(),
                game_id,
                pool_type,
                pool_id: pool_id.clone(),
                team_id,
                reward_amount: 0,
                claimed_reward: false,
                refund_amount: 0,
                claimed_refund: false,
                team_points: INITIAL_TEAM_POINTS,
                team_rank: INITIAL_TEAM_RANK,
            },
        );
        self.pool_teams.save(pool_id, teams);
        let balance = match self.gaming_funds.get(&gamer) {
            Some(b) => *b,
            None => 0,
        };
        self.gaming_funds.save(gamer, balance + pool_fee);
        let mut resp = Response::empty();
        resp.add_attr("pool_id", attr_id);
        Ok(resp)
    }
}


/// Whether a team holds an uncollected reward (or refund) of `gamer`.
pub open spec fn claimable(t: PoolTeamDetails, gamer: Seq<char>, refund: bool) -> bool {
    t.gamer_address@ == gamer && if refund {
        !t.claimed_refund
    } else {
        !t.claimed_reward
    }
}

/// The amount a team holds for a claim.
pub open spec fn claim_amount(t: PoolTeamDetails, refund: bool) -> u128 {
    if refund {
        t.refund_amount
    } else {
        t.reward_amount
    }
}

/// A team after a claim of `gamer`: marked collected if it was claimable.
pub open spec fn claimed_team(t: PoolTeamDetails, gamer: Seq<char>, refund: bool) -> PoolTeamDetails {
    if claimable(t, gamer, refund) {
        if refund {
            PoolTeamDetails { claimed_refund: true, ..t }
        } else {
            PoolTeamDetails { claimed_reward: true, ..t }
        }
    } else {
        t
    }
}

pub open spec fn claimed_list(l: Seq<PoolTeamDetails>, gamer: Seq<char>, refund: bool) -> Seq<PoolTeamDetails> {
    l.map_values(|t: PoolTeamDetails| claimed_team(t, gamer, refund))
}

/// The sum a list holds for a claim of `gamer`.
pub open spec fn claimable_sum(l: Seq<PoolTeamDetails>, gamer: Seq<char>, refund: bool) -> nat
    decreases l.len(),
{
    if l.len() == 0 {
        0
    } else {
        claimable_sum(l.drop_last(), gamer, refund) + if claimable(l.last(), gamer, refund) {
            claim_amount(l.last(), refund) as nat
        } else {
            0nat
        }
    }
}

/// The team lists after a claim has gone through the first `n` pools in order.
pub open spec fn claim_fold(t: Seq<(Seq<char>, Seq<PoolTeamDetails>)>, pools: Seq<(Seq<char>, PoolDetails)>, n: nat, gamer: Seq<char>, refund: bool) -> Seq<(Seq<char>, Seq<PoolTeamDetails>)>
    decreases n,
{
    if n == 0 {
        t
    } else {
        let prev = claim_fold(t, pools, (n - 1) as nat, gamer, refund);
        let k = pools[n - 1].0;
        saved(prev, k, claimed_list(teams_of(prev, k), gamer, refund))
    }
}

/// What stands to be claimed: the sum over the pools, in order, of what their lists hold for `gamer`.
pub open spec fn claimable_total(t: Seq<(Seq<char>, Seq<PoolTeamDetails>)>, pools: Seq<(Seq<char>, PoolDetails)>, gamer: Seq<char>, refund: bool) -> nat
    decreases pools.len(),
{
    if pools.len() == 0 {
        0
    } else {
        claimable_total(t, pools.drop_last(), gamer, refund) + claimable_sum(teams_of(t, pools.last().0), gamer, refund)
    }
}

pub proof fn lemma_claimable_sum_prefix(l: Seq<PoolTeamDetails>, j: int, gamer: Seq<char>, refund: bool)
    requires
        0 <= j <= l.len(),
    ensures
        claimable_sum(l.take(j), gamer, refund) <= claimable_sum(l, gamer, refund),
    decreases l.len(),
{
    if j < l.len() {
        assert(l.drop_last().take(j) =~= l.take(j));
        lemma_claimable_sum_prefix(l.drop_last(), j, gamer, refund);
    } else {
        assert(l.take(j) =~= l);
    }
}

impl GamingPool {
    /// Everything but the team lists is as before.
    pub open spec fn same_but_teams(&self, o: &Self) -> bool {
        &&& self.config == o.config
        &&& self.game_result_template == o.game_result_template
        &&& self.pool_count == o.pool_count
        &&& self.games == o.games
        &&& self.pools == o.pools
        &&& self.pool_types == o.pool_types
        &&& self.platform_wallets == o.platform_wallets
        &&& self.gaming_funds == o.gaming_funds
    }

    /// What `gamer` stands to collect.
    pub open spec fn claimable(&self, gamer: Seq<char>, refund: bool) -> nat {
        claimable_total(self.pool_teams@, self.pools@, gamer, refund)
    }

    /// What `gamer` stands to collect, where the sum fits in 128 bits (the
    /// claims and the reward query add it up without a check).
    pub fn checked_claimable(&self, gamer: &String, refund: bool) -> (r: Option<u128>)
        requires
            self.wf(),
        ensures
            match r {
                Some(x) => x == self.claimable(gamer@, refund),
                None => self.claimable(gamer@, refund) > u128::MAX,
            },
    {
        let ghost t = self.pool_teams@;
        let ghost ps = self.pools@;
        let mut total: u128 = 0;
        let mut i: usize = 0;
        while i < self.pools.len()
            invariant
                t == self.pool_teams@,
                ps == self.pools@,
                self.wf(),
                i <= ps.len(),
                total == claimable_total(t, ps.take(i as int), gamer@, refund),
            decreases ps.len() - i,
        {
            let ghost base = total as nat;
            proof {
                assert(ps.take(i + 1).drop_last() =~= ps.take(i as int));
                lemma_claimable_total_prefix(t, ps, i + 1, gamer@, refund);
            }
            match self.pool_teams.get(self.pools.key_at(i)) {
                None => {},
                Some(l) => {
                    let mut j: usize = 0;
                    while j < l.len()
                        invariant
                            j <= l@.len(),
                            total == base + claimable_sum(l@.take(j as int), gamer@, refund),
                            base + claimable_sum(l@, gamer@, refund) == claimable_total(t, ps.take(i + 1), gamer@, refund),
                            claimable_total(t, ps.take(i + 1), gamer@, refund) <= claimable_total(t, ps, gamer@, refund),
                            t == self.pool_teams@,
                            ps == self.pools@,
                        decreases l@.len() - j,
                    {
                        proof {
                            assert(l@.take(j + 1).drop_last() =~= l@.take(j as int));
                            lemma_claimable_sum_prefix(l@, j + 1, gamer@, refund);
                        }
                        let tm = &l[j];
                        if tm.gamer_address.eq(gamer) && (if refund { !tm.claimed_refund } else { !tm.claimed_reward }) {
                            match total.checked_add(if refund { tm.refund_amount } else { tm.reward_amount }) {
                                None => {
                                    assert(claimable_sum(l@.take(j + 1), gamer@, refund) == claimable_sum(
                                        l@.take(j as int),
                                        gamer@,
                                        refund,
                                    ) + claim_amount(l@[j as int], refund));
                                    assert(self.claimable(gamer@, refund) > u128::MAX);
                                    return None;
                                },
                                Some(x) => {
                                    total = x;
                                },
                            }
                        }
                        j = j + 1;
                    }
                    assert(l@.take(l@.len() as int) =~= l@);
                },
            }
            i = i + 1;
        }
        assert(ps.take(ps.len() as int) =~= ps);
        Some(total)
    }

    fn claim(&mut self, sender: &String, gamer: String, refund: bool) -> (r: Result<Response, GameError>)
        requires
            old(self).wf(),
            gamer@ == sender@ ==> old(self).claimable(gamer@, refund) <= u128::MAX,
        ensures
            final(self).wf(),
            gamer@ != sender@ ==> r == Err::<Response, GameError>(GameError::Unauthorized { invoker: *sender })
                && *final(self) == *old(self),
            gamer@ == sender@ && old(self).claimable(gamer@, refund) == 0 ==> r == Err::<Response, GameError>(
                if refund { GameError::NoRefund } else { GameError::NoReward },
            ) && *final(self) == *old(self),
            gamer@ == sender@ && old(self).claimable(gamer@, refund) > 0 ==> (r matches Ok(resp) && payout_response(
                resp,
                old(self).config.minting_contract_address,
                gamer,
                old(self).claimable(gamer@, refund) as u128,
                if refund { "refund"@ } else { "reward"@ },
            false) && final(self).same_but_teams(old(self))
                && final(self).pool_teams@ == claim_fold(old(self).pool_teams@, old(self).pools@, old(self).pools@.len(), gamer@, refund)),
    {
        if !gamer.eq(sender) {
            return Err(GameError::Unauthorized { invoker: sender.clone() });
        }
        let total = match self.checked_claimable(&gamer, refund) {
            Some(x) => x,
            None => 0,
        };
        if total == 0 {
            return Err(if refund { GameError::NoRefund } else { GameError::NoReward });
        }
        let ghost t0 = self.pool_teams@;
        let ghost ps = self.pools@;
        let mut i: usize = 0;
        while i < self.pools.len()
            invariant
                ps == self.pools@,
                self.wf(),
                i <= ps.len(),
                self.pool_teams@ == claim_fold(t0, ps, i as nat, gamer@, refund),
                self.same_but_teams(old(self)),
            decreases ps.len() - i,
        {
            let k = self.pools.key_at(i).clone();
            let ghost prev = self.pool_teams@;
            let mut updated: Vec<PoolTeamDetails> = Vec::new();
            match self.pool_teams.get(&k) {
                None => {
                    assert(teams_of(prev, k@) =~= Seq::<PoolTeamDetails>::empty());
                    assert(updated@ =~= claimed_list(teams_of(prev, k@), gamer@, refund));
                },
                Some(l) => {
                    let mut j: usize = 0;
                    while j < l.len()
                        invariant
                            j <= l@.len(),
                            updated@ == claimed_list(l@.take(j as int), gamer@, refund),
                        decreases l@.len() - j,
                    {
                        let mut tm = clone_team(&l[j]);
                        if tm.gamer_address.eq(&gamer) {
                            if refund {
                                tm.claimed_refund = true;
                            } else {
                                tm.claimed_reward = true;
                            }
                        }
                        let ghost expect = claimed_team(l@[j as int], gamer@, refund);
                        // a team already collected is left as it was
                        if refund {
                            if l[j].claimed_refund {
                                tm = clone_team(&l[j]);
                            }
                        } else {
                            if l[j].claimed_reward {
                                tm = clone_team(&l[j]);
                            }
                        }
                        assert(tm == expect);
                        updated.push(tm);
                        assert(claimed_list(l@.take(j + 1), gamer@, refund) =~= claimed_list(l@.take(j as int), gamer@, refund).push(expect));
                        j = j + 1;
                    }
                    assert(l@.take(l@.len() as int) =~= l@);
                },
            }
            self.pool_teams.save(k, updated);
            i = i + 1;
        }
        Ok(payout(self.config.minting_contract_address.clone(), gamer, total, if refund { "refund" } else { "reward" }, false))
    }

    /// What `gamer` can collect as rewards.
    pub fn query_reward(&self, gamer: &String) -> (r: u128)
        requires
            self.wf(),
            self.claimable(gamer@, false) <= u128::MAX,
        ensures
            r == self.claimable(gamer@, false),
    {
        match self.checked_claimable(gamer, false) {
            Some(x) => x,
            None => 0,
        }
    }

    /// The gamer collects all uncollected rewards of their teams, over all pools.
    pub fn claim_reward(&mut self, sender: &String, gamer: String) -> (r: Result<Response, GameError>)
        requires
            old(self).wf(),
            gamer@ == sender@ ==> old(self).claimable(gamer@, false) <= u128::MAX,
        ensures
            final(self).wf(),
            gamer@ != sender@ ==> r == Err::<Response, GameError>(GameError::Unauthorized { invoker: *sender })
                && *final(self) == *old(self),
            gamer@ == sender@ && old(self).claimable(gamer@, false) == 0 ==> r == Err::<Response, GameError>(
                GameError::NoReward,
            ) && *final(self) == *old(self),
            gamer@ == sender@ && old(self).claimable(gamer@, false) > 0 ==> (r matches Ok(resp) && payout_response(
                resp,
                old(self).config.minting_contract_address,
                gamer,
                old(self).claimable(gamer@, false) as u128,
                "reward"@,
            false) && final(self).same_but_teams(old(self))
                && final(self).pool_teams@ == claim_fold(old(self).pool_teams@, old(self).pools@, old(self).pools@.len(), gamer@, false)),
    {
        self.claim(sender, gamer, false)
    }

    /// The gamer collects all uncollected refunds of their teams, over all pools.
    pub fn claim_refund(&mut self, sender: &String, gamer: String) -> (r: Result<Response, GameError>)
        requires
            old(self).wf(),
            gamer@ == sender@ ==> old(self).claimable(gamer@, true) <= u128::MAX,
        ensures
            final(self).wf(),
            gamer@ != sender@ ==> r == Err::<Response, GameError>(GameError::Unauthorized { invoker: *sender })
                && *final(self) == *old(self),
            gamer@ == sender@ && old(self).claimable(gamer@, true) == 0 ==> r == Err::<Response, GameError>(
                GameError::NoRefund,
            ) && *final(self) == *old(self),
            gamer@ == sender@ && old(self).claimable(gamer@, true) > 0 ==> (r matches Ok(resp) && payout_response(
                resp,
                old(self).config.minting_contract_address,
                gamer,
                old(self).claimable(gamer@, true) as u128,
                "refund"@,
            false) && final(self).same_but_teams(old(self))
                && final(self).pool_teams@ == claim_fold(old(self).pool_teams@, old(self).pools@, old(self).pools@.len(), gamer@, true)),
    {
        self.claim(sender, gamer, true)
    }
}

pub proof fn lemma_claimable_total_prefix(t: Seq<(Seq<char>, Seq<PoolTeamDetails>)>, ps: Seq<(Seq<char>, PoolDetails)>, i: int, gamer: Seq<char>, refund: bool)
    requires
        0 <= i <= ps.len(),
    ensures
        claimable_total(t, ps.take(i), gamer, refund) <= claimable_total(t, ps, gamer, refund),
    decreases ps.len(),
{
    if i < ps.len() {
        assert(ps.drop_last().take(i) =~= ps.take(i));
        lemma_claimable_total_prefix(t, ps.drop_last(), i, gamer, refund);
    } else {
        assert(ps.take(i) =~= ps);
    }
}


/// All teams of all pools, pool by pool in order; none if a pool has no team list.
pub open spec fn all_teams(t: Seq<(Seq<char>, Seq<PoolTeamDetails>)>, pools: Seq<(Seq<char>, PoolDetails)>) -> Option<Seq<PoolTeamDetails>>
    decreases pools.len(),
{
    if pools.len() == 0 {
        Some(Seq::empty())
    } else {
        match all_teams(t, pools.drop_last()) {
            None => None,
            Some(a) => match lookup(t, pools.last().0) {
                None => None,
                Some(l) => Some(a + l),
            },
        }
    }
}

/// Whether a team is the one a game result asks for.
pub open spec fn result_match(t: PoolTeamDetails, gamer: Seq<char>, game_id: Seq<char>, pool_id: Seq<char>, team_id: Seq<char>) -> bool {
    t.gamer_address@ == gamer && t.team_id@ == team_id && t.game_id@ == game_id && t.pool_id@ == pool_id
}

/// Rank, points, uncollected reward and uncollected refund of the matching teams of a list:
/// rank and points of the last match, sums over all matches.
pub open spec fn result_fold(l: Seq<PoolTeamDetails>, gamer: Seq<char>, game_id: Seq<char>, pool_id: Seq<char>, team_id: Seq<char>) -> (u64, u64, nat, nat)
    decreases l.len(),
{
    if l.len() == 0 {
        (INITIAL_TEAM_RANK, INITIAL_TEAM_POINTS, 0, 0)
    } else {
        let p = result_fold(l.drop_last(), gamer, game_id, pool_id, team_id);
        let t = l.last();
        if result_match(t, gamer, game_id, pool_id, team_id) {
            (
                t.team_rank,
                t.team_points,
                p.2 + if !t.claimed_reward { t.reward_amount as nat } else { 0nat },
                p.3 + if !t.claimed_refund { t.refund_amount as nat } else { 0nat },
            )
        } else {
            p
        }
    }
}

pub proof fn lemma_result_fold_prefix(l: Seq<PoolTeamDetails>, j: int, gamer: Seq<char>, game_id: Seq<char>, pool_id: Seq<char>, team_id: Seq<char>)
    requires
        0 <= j <= l.len(),
    ensures
        result_fold(l.take(j), gamer, game_id, pool_id, team_id).2 <= result_fold(l, gamer, game_id, pool_id, team_id).2,
        result_fold(l.take(j), gamer, game_id, pool_id, team_id).3 <= result_fold(l, gamer, game_id, pool_id, team_id).3,
    decreases l.len(),
{
    if j < l.len() {
        assert(l.drop_last().take(j) =~= l.take(j));
        lemma_result_fold_prefix(l.drop_last(), j, gamer, game_id, pool_id, team_id);
    } else {
        assert(l.take(j) =~= l);
    }
}

impl GamingPool {
    /// The teams of all pools, pool by pool in pool id order.
    pub fn query_all_teams(&self) -> (r: Result<Vec<PoolTeamDetails>, GameError>)
        requires
            self.wf(),
        ensures
            match all_teams(self.pool_teams@, self.pools@) {
                None => r == Err::<Vec<PoolTeamDetails>, GameError>(GameError::TeamListNotFound),
                Some(a) => r matches Ok(v) && v@ == a,
            },
    {
        let ghost t = self.pool_teams@;
        let ghost ps = self.pools@;
        let mut out: Vec<PoolTeamDetails> = Vec::new();
        let mut i: usize = 0;
        while i < self.pools.len()
            invariant
                t == self.pool_teams@,
                ps == self.pools@,
                self.wf(),
                i <= ps.len(),
                all_teams(t, ps.take(i as int)) == Some(out@),
            decreases ps.len() - i,
        {
            assert(ps.take(i + 1).drop_last() =~= ps.take(i as int));
            match self.pool_teams.get(self.pools.key_at(i)) {
                None => {
                    proof {
                        lemma_all_teams_none(t, ps, i as int + 1);
                    }
                    return Err(GameError::TeamListNotFound);
                },
                Some(l) => {
                    let ghost before = out@;
                    let mut j: usize = 0;
                    while j < l.len()
                        invariant
                            j <= l@.len(),
                            out@ == before + l@.take(j as int),
                        decreases l@.len() - j,
                    {
                        out.push(clone_team(&l[j]));
                        assert(before + l@.take(j + 1) =~= (before + l@.take(j as int)).push(l@[j as int]));
                        j = j + 1;
                    }
                    assert(l@.take(l@.len() as int) =~= l@);
                },
            }
            i = i + 1;
        }
        assert(ps.take(ps.len() as int) =~= ps);
        Ok(out)
    }

    /// The result of one team: rank and points of the last matching team,
    /// uncollected reward and refund summed over the matching teams of the pool.
    pub fn query_game_result(&self, gamer: String, game_id: String, pool_id: String, team_id: String) -> (r: Result<GameResult, GameError>)
        requires
            self.wf(),
            self.game_result_template.is_some() ==> result_fold(teams_of(self.pool_teams@, pool_id@), gamer@, game_id@, pool_id@, team_id@).2 <= u128::MAX,
            self.game_result_template.is_some() ==> result_fold(teams_of(self.pool_teams@, pool_id@), gamer@, game_id@, pool_id@, team_id@).3 <= u128::MAX,
        ensures
            self.game_result_template.is_none() ==> r == Err::<GameResult, GameError>(GameError::NoGameResultDetails),
            self.game_result_template.is_some() ==> ({
                let f = result_fold(teams_of(self.pool_teams@, pool_id@), gamer@, game_id@, pool_id@, team_id@);
                r == Ok::<GameResult, GameError>(GameResult {
                    gamer_address: gamer,
                    game_id,
                    team_id,
                    team_rank: f.0,
                    team_points: f.1,
                    reward_amount: f.2 as u128,
                    refund_amount: f.3 as u128,
                })
            }),
    {
        if self.game_result_template.is_none() {
            return Err(GameError::NoGameResultDetails);
        }
        let mut team_rank: u64 = INITIAL_TEAM_RANK;
        let mut team_points: u64 = INITIAL_TEAM_POINTS;
        let mut reward_amount: u128 = 0;
        let mut refund_amount: u128 = 0;
        match self.pool_teams.get(&pool_id) {
            None => {},
            Some(l) => {
                let ghost full = result_fold(l@, gamer@, game_id@, pool_id@, team_id@);
                let mut j: usize = 0;
                while j < l.len()
                    invariant
                        j <= l@.len(),
                        full == result_fold(l@, gamer@, game_id@, pool_id@, team_id@),
                        full.2 <= u128::MAX,
                        full.3 <= u128::MAX,
                        (team_rank, team_points, reward_amount as nat, refund_amount as nat) == result_fold(l@.take(j as int), gamer@, game_id@, pool_id@, team_id@),
                    decreases l@.len() - j,
                {
                    proof {
                        assert(l@.take(j + 1).drop_last() =~= l@.take(j as int));
                        lemma_result_fold_prefix(l@, j + 1, gamer@, game_id@, pool_id@, team_id@);
                    }
                    let tm = &l[j];
                    if tm.gamer_address.eq(&gamer) && tm.team_id.eq(&team_id) && tm.game_id.eq(&game_id) && tm.pool_id.eq(&pool_id) {
                        team_rank = tm.team_rank;
                        team_points = tm.team_points;
                        if !tm.claimed_reward {
                            reward_amount = reward_amount + tm.reward_amount;
                        }
                        if !tm.claimed_refund {
                            refund_amount = refund_amount + tm.refund_amount;
                        }
                    }
                    j = j + 1;
                }
                assert(l@.take(l@.len() as int) =~= l@);
            },
        }
        Ok(GameResult { gamer_address: gamer, game_id, team_id, team_rank, team_points, reward_amount, refund_amount })
    }
}

impl GamingPool {
    /// Whether a game result can sum the uncollected rewards and refunds, as
    /// the query itself needs.
    pub fn game_result_ready(&self, gamer: &String, game_id: &String, pool_id: &String, team_id: &String) -> (r: bool)
        requires
            self.wf(),
        ensures
            r == (self.game_result_template.is_some() ==> {
                let f = result_fold(teams_of(self.pool_teams@, pool_id@), gamer@, game_id@, pool_id@, team_id@);
                f.2 <= u128::MAX && f.3 <= u128::MAX
            }),
    {
        if self.game_result_template.is_none() {
            return true;
        }
        let l = match self.pool_teams.get(pool_id) {
            None => {
                return true;
            },
            Some(l) => l,
        };
        let ghost full = result_fold(l@, gamer@, game_id@, pool_id@, team_id@);
        assert(l@ == teams_of(self.pool_teams@, pool_id@));
        let mut reward_amount: u128 = 0;
        let mut refund_amount: u128 = 0;
        let mut j: usize = 0;
        while j < l.len()
            invariant
                j <= l@.len(),
                full == result_fold(l@, gamer@, game_id@, pool_id@, team_id@),
                l@ == teams_of(self.pool_teams@, pool_id@),
                self.game_result_template.is_some(),
                reward_amount == result_fold(l@.take(j as int), gamer@, game_id@, pool_id@, team_id@).2,
                refund_amount == result_fold(l@.take(j as int), gamer@, game_id@, pool_id@, team_id@).3,
            decreases l@.len() - j,
        {
            proof {
                assert(l@.take(j + 1).drop_last() =~= l@.take(j as int));
                lemma_result_fold_prefix(l@, j + 1, gamer@, game_id@, pool_id@, team_id@);
            }
            let tm = &l[j];
            if tm.gamer_address.eq(gamer) && tm.team_id.eq(team_id) && tm.game_id.eq(game_id) && tm.pool_id.eq(pool_id) {
                if !tm.claimed_reward {
                    match reward_amount.checked_add(tm.reward_amount) {
                        Some(x) => {
                            reward_amount = x;
                        },
                        None => {
                            return false;
                        },
                    }
                }
                if !tm.claimed_refund {
                    match refund_amount.checked_add(tm.refund_amount) {
                        Some(x) => {
                            refund_amount = x;
                        },
                        None => {
                            return false;
                        },
                    }
                }
            }
            j = j + 1;
        }
        assert(l@.take(l@.len() as int) =~= l@);
        true
    }
}

pub proof fn lemma_all_teams_none(t: Seq<(Seq<char>, Seq<PoolTeamDetails>)>, ps: Seq<(Seq<char>, PoolDetails)>, n: int)
    requires
        0 < n <= ps.len(),
        lookup(t, ps[n - 1].0).is_none(),
    ensures
        all_teams(t, ps).is_none(),
    decreases ps.len(),
{
    if n < ps.len() {
        assert(ps.drop_last()[n - 1] == ps[n - 1]);
        lemma_all_teams_none(t, ps.drop_last(), n);
    }
}


/// Every pool's type is known.
pub open spec fn pools_have_types(types: Seq<(Seq<char>, PoolTypeDetails)>, pools: Seq<(Seq<char>, PoolDetails)>) -> bool {
    forall|i: int| 0 <= i < pools.len() ==> #[trigger] has_key(types, pools[i].1.pool_type@)
}

/// A team list after a refund of `amount` per team has been booked.
pub open spec fn refund_list(l: Seq<PoolTeamDetails>, amount: u128) -> Seq<PoolTeamDetails> {
    l.map_values(|t: PoolTeamDetails| PoolTeamDetails { refund_amount: amount, claimed_refund: false, ..t })
}

/// Gaming funds after the pool fee of each team of `l` is taken off its gamer, in order;
/// none where a balance would go below zero.
pub open spec fn deduct_fees(f: Seq<(Seq<char>, u128)>, l: Seq<PoolTeamDetails>, fee: u128) -> Option<Seq<(Seq<char>, u128)>>
    decreases l.len(),
{
    if l.len() == 0 {
        Some(f)
    } else {
        match deduct_fees(f, l.drop_last(), fee) {
            None => None,
            Some(g) => {
                let who = l.last().gamer_address@;
                let b = balance_of(g, who);
                if b >= fee {
                    Some(saved(g, who, (b - fee) as u128))
                } else {
                    None
                }
            },
        }
    }
}

/// Team lists and gaming funds after the refunds of the first `n` pools, in order
/// (with `only_short`, only pools with fewer teams than their type's minimum);
/// none where the arithmetic overflows.
pub open spec fn refund_fold(
    t: Seq<(Seq<char>, Seq<PoolTeamDetails>)>,
    f: Seq<(Seq<char>, u128)>,
    pools: Seq<(Seq<char>, PoolDetails)>,
    types: Seq<(Seq<char>, PoolTypeDetails)>,
    platform_fee: u128,
    n: nat,
    only_short: bool,
) -> Option<(Seq<(Seq<char>, Seq<PoolTeamDetails>)>, Seq<(Seq<char>, u128)>)>
    decreases n,
{
    if n == 0 {
        Some((t, f))
    } else {
        match refund_fold(t, f, pools, types, platform_fee, (n - 1) as nat, only_short) {
            None => None,
            Some((t1, f1)) => {
                let k = pools[n - 1].0;
                let pool = pools[n - 1].1;
                let pt = lookup(types, pool.pool_type@).unwrap();
                if only_short && pool.current_teams_count >= pt.min_teams_for_pool {
                    Some((t1, f1))
                } else if pt.pool_fee + platform_fee > u128::MAX {
                    None
                } else {
                    let l = teams_of(t1, k);
                    match deduct_fees(f1, l, pt.pool_fee) {
                        None => None,
                        Some(f2) => Some((saved(t1, k, refund_list(l, (pt.pool_fee + platform_fee) as u128)), f2)),
                    }
                }
            },
        }
    }
}

pub proof fn lemma_refund_fold_prefix(
    t: Seq<(Seq<char>, Seq<PoolTeamDetails>)>,
    f: Seq<(Seq<char>, u128)>,
    pools: Seq<(Seq<char>, PoolDetails)>,
    types: Seq<(Seq<char>, PoolTypeDetails)>,
    platform_fee: u128,
    i: nat,
    n: nat,
    only_short: bool,
)
    requires
        i <= n,
        refund_fold(t, f, pools, types, platform_fee, n, only_short).is_some(),
    ensures
        refund_fold(t, f, pools, types, platform_fee, i, only_short).is_some(),
    decreases n,
{
    if i < n {
        lemma_refund_fold_prefix(t, f, pools, types, platform_fee, i, (n - 1) as nat, only_short);
    }
}

pub proof fn lemma_deduct_fees_prefix(f: Seq<(Seq<char>, u128)>, l: Seq<PoolTeamDetails>, fee: u128, j: int)
    requires
        0 <= j <= l.len(),
        deduct_fees(f, l, fee).is_some(),
    ensures
        deduct_fees(f, l.take(j), fee).is_some(),
    decreases l.len(),
{
    if j < l.len() {
        assert(l.drop_last().take(j) =~= l.take(j));
        lemma_deduct_fees_prefix(f, l.drop_last(), fee, j);
    } else {
        assert(l.take(j) =~= l);
    }
}

pub proof fn lemma_refund_fold_wf(
    t: Seq<(Seq<char>, Seq<PoolTeamDetails>)>,
    f: Seq<(Seq<char>, u128)>,
    pools: Seq<(Seq<char>, PoolDetails)>,
    types: Seq<(Seq<char>, PoolTypeDetails)>,
    platform_fee: u128,
    n: nat,
    only_short: bool,
)
    requires
        sorted_keys(t),
        sorted_keys(f),
        refund_fold(t, f, pools, types, platform_fee, n, only_short).is_some(),
    ensures
        sorted_keys(refund_fold(t, f, pools, types, platform_fee, n, only_short).unwrap().0),
        sorted_keys(refund_fold(t, f, pools, types, platform_fee, n, only_short).unwrap().1),
    decreases n,
{
    if n > 0 {
        lemma_refund_fold_wf(t, f, pools, types, platform_fee, (n - 1) as nat, only_short);
        let (t1, f1) = refund_fold(t, f, pools, types, platform_fee, (n - 1) as nat, only_short).unwrap();
        let k = pools[n - 1].0;
        let pool = pools[n - 1].1;
        let pt = lookup(types, pool.pool_type@).unwrap();
        if !(only_short && pool.current_teams_count >= pt.min_teams_for_pool) {
            let l = teams_of(t1, k);
            lemma_deduct_fees_wf(f1, l, pt.pool_fee);
            crate::table::lemma_saved_sorted(t1, k, refund_list(l, (pt.pool_fee + platform_fee) as u128));
        }
    }
}

pub proof fn lemma_deduct_fees_wf(f: Seq<(Seq<char>, u128)>, l: Seq<PoolTeamDetails>, fee: u128)
    requires
        sorted_keys(f),
        deduct_fees(f, l, fee).is_some(),
    ensures
        sorted_keys(deduct_fees(f, l, fee).unwrap()),
    decreases l.len(),
{
    if l.len() > 0 {
        lemma_deduct_fees_wf(f, l.drop_last(), fee);
        let g = deduct_fees(f, l.drop_last(), fee).unwrap();
        let who = l.last().gamer_address@;
        crate::table::lemma_saved_sorted(g, who, (balance_of(g, who) - fee) as u128);
    }
}

impl GamingPool {
    /// Everything but team lists and gaming funds is as before.
    pub open spec fn same_but_refunds(&self, o: &Self) -> bool {
        &&& self.config == o.config
        &&& self.game_result_template == o.game_result_template
        &&& self.pool_count == o.pool_count
        &&& self.pools == o.pools
        &&& self.pool_types == o.pool_types
        &&& self.platform_wallets == o.platform_wallets
    }

    /// The refunds of a cancel (all pools) or a lock (pools short of teams).
    pub open spec fn refunds(&self, only_short: bool) -> Option<(Seq<(Seq<char>, Seq<PoolTeamDetails>)>, Seq<(Seq<char>, u128)>)> {
        refund_fold(
            self.pool_teams@,
            self.gaming_funds@,
            self.pools@,
            self.pool_types@,
            self.config.platform_fee,
            self.pools@.len(),
            only_short,
        )
    }

    /// Books the refunds: each refunded team gets pool fee plus platform fee as
    /// refund to collect, and its pool fee leaves its gamer's gaming funds.
    fn book_refunds(&mut self, only_short: bool)
        requires
            old(self).wf(),
            pools_have_types(old(self).pool_types@, old(self).pools@),
            old(self).refunds(only_short).is_some(),
        ensures
            final(self).wf(),
            final(self).same_but_refunds(old(self)),
            final(self).games == old(self).games,
            final(self).pool_teams@ == old(self).refunds(only_short).unwrap().0,
            final(self).gaming_funds@ == old(self).refunds(only_short).unwrap().1,
    {
        let platform_fee = self.config.platform_fee;
        book_refunds_in(&mut self.pool_teams, &mut self.gaming_funds, &self.pools, &self.pool_types, platform_fee, only_short);
    }

    /// Whether a cancel (or a lock) by `sender` can book its refunds without
    /// taking a pool fee off gaming funds that do not hold it and without
    /// overflow, where it gets that far: what the cancel and the lock require.
    pub fn end_game_ready(&self, sender: &String, game_id: &String, lock: bool) -> (r: bool)
        requires
            self.wf(),
        ensures
            r == (self.end_game_error(*sender, game_id@, lock).is_none() ==> self.refunds(lock).is_some()),
    {
        if !self.config.admin_address.eq(sender) {
            return true;
        }
        match self.games.get(game_id) {
            None => {
                return true;
            },
            Some(g) => {
                if lock && g.game_status != GAME_POOL_OPEN {
                    return true;
                }
                if !lock && g.game_status == GAME_COMPLETED {
                    return true;
                }
                if !lock && g.game_status == GAME_CANCELLED {
                    return true;
                }
            },
        }
        if !self.all_pools_typed() {
            return true;
        }
        let mut teams = self.pool_teams.duplicate(|l: &Vec<PoolTeamDetails>| -> (c: Vec<PoolTeamDetails>)
            ensures
                c@ == l@,
            { clone_teams(l) });
        let mut funds = self.gaming_funds.duplicate(|b: &u128| -> (c: u128)
            ensures
                c == *b,
            { *b });
        book_refunds_in(&mut teams, &mut funds, &self.pools, &self.pool_types, self.config.platform_fee, lock)
    }

    /// The first check a cancel or a lock fails.
    pub open spec fn end_game_error(&self, sender: String, game_id: Seq<char>, lock: bool) -> Option<GameError> {
        if !self.is_admin(sender@) {
            Some(GameError::Unauthorized { invoker: sender })
        } else if game_status(self.games@, game_id).is_none() {
            Some(GameError::GameStatusUnavailable)
        } else if lock && game_status(self.games@, game_id) != Some(GAME_POOL_OPEN) {
            Some(GameError::LockNotOpenGame)
        } else if !lock && game_status(self.games@, game_id) == Some(GAME_COMPLETED) {
            Some(GameError::CancelCompletedGame)
        } else if !lock && game_status(self.games@, game_id) == Some(GAME_CANCELLED) {
            Some(GameError::CancelCancelledGame)
        } else if !pools_have_types(self.pool_types@, self.pools@) {
            Some(GameError::NoPoolTypeForPool)
        } else {
            None
        }
    }

    fn all_pools_typed(&self) -> (r: bool)
        requires
            self.wf(),
        ensures
            r == pools_have_types(self.pool_types@, self.pools@),
    {
        let mut i: usize = 0;
        while i < self.pools.len()
            invariant
                i <= self.pools@.len(),
                self.wf(),
                forall|j: int| 0 <= j < i ==> #[trigger] has_key(self.pool_types@, self.pools@[j].1.pool_type@),
            decreases self.pools@.len() - i,
        {
            if !self.pool_types.contains(&self.pools.val_at(i).pool_type) {
                return false;
            }
            i = i + 1;
        }
        true
    }

    fn end_game(&mut self, sender: &String, game_id: String, lock: bool) -> (r: Result<Response, GameError>)
        requires
            old(self).wf(),
            old(self).end_game_error(*sender, game_id@, lock).is_none() ==> old(self).refunds(lock).is_some(),
        ensures
            final(self).wf(),
            old(self).end_game_error(*sender, game_id@, lock) matches Some(e) ==> r == Err::<Response, GameError>(e)
                && *final(self) == *old(self),
            old(self).end_game_error(*sender, game_id@, lock).is_none() ==> (r matches Ok(resp) && resp.messages@.len() == 0
                && resp.attrs() == seq![("game_id"@, game_id@), ("game_status"@, if lock { "GAME_POOL_CLOSED"@ } else { "GAME_CANCELLED"@ })]
                && resp.data.is_none()
                && final(self).same_but_refunds(old(self))
                && final(self).games@ == saved(old(self).games@, game_id@, GameDetails { game_id, game_status: if lock { GAME_POOL_CLOSED } else { GAME_CANCELLED } })
                && final(self).pool_teams@ == old(self).refunds(lock).unwrap().0
                && final(self).gaming_funds@ == old(self).refunds(lock).unwrap().1),
    {
        if !self.config.admin_address.eq(sender) {
            return Err(GameError::Unauthorized { invoker: sender.clone() });
        }
        match self.games.get(&game_id) {
            None => {
                return Err(GameError::GameStatusUnavailable);
            },
            Some(g) => {
                if lock && g.game_status != GAME_POOL_OPEN {
                    return Err(GameError::LockNotOpenGame);
                }
                if !lock && g.game_status == GAME_COMPLETED {
                    return Err(GameError::CancelCompletedGame);
                }
                if !lock && g.game_status == GAME_CANCELLED {
                    return Err(GameError::CancelCancelledGame);
                }
            },
        }
        if !self.all_pools_typed() {
            return Err(GameError::NoPoolTypeForPool);
        }
        let attr_id = game_id.clone();
        self.games.save(game_id.clone(), GameDetails { game_id, game_status: if lock { GAME_POOL_CLOSED } else { GAME_CANCELLED } });
        self.book_refunds(lock);
        let mut resp = Response::empty();
        resp.add_attr("game_id", attr_id);
        resp.add_attr("game_status", String::from_str(if lock { "GAME_POOL_CLOSED" } else { "GAME_CANCELLED" }));
        Ok(resp)
    }

    /// Admin only: cancels a game that is neither completed nor cancelled.
    /// Every team of every pool gets its pool fee plus the platform fee as
    /// refund to collect, and the pool fee leaves the gamer's gaming funds.
    pub fn cancel_game(&mut self, sender: &String, game_id: String) -> (r: Result<Response, GameError>)
        requires
            old(self).wf(),
            old(self).end_game_error(*sender, game_id@, false).is_none() ==> old(self).refunds(false).is_some(),
        ensures
            final(self).wf(),
            old(self).end_game_error(*sender, game_id@, false) matches Some(e) ==> r == Err::<Response, GameError>(e)
                && *final(self) == *old(self),
            old(self).end_game_error(*sender, game_id@, false).is_none() ==> (r matches Ok(resp) && resp.messages@.len() == 0
                && resp.attrs() == seq![("game_id"@, game_id@), ("game_status"@, "GAME_CANCELLED"@)]
                && resp.data.is_none()
                && final(self).same_but_refunds(old(self))
                && final(self).games@ == saved(old(self).games@, game_id@, GameDetails { game_id, game_status: GAME_CANCELLED })
                && final(self).pool_teams@ == old(self).refunds(false).unwrap().0
                && final(self).gaming_funds@ == old(self).refunds(false).unwrap().1),
    {
        self.end_game(sender, game_id, false)
    }

    /// Admin only: closes an open game for bidding. The teams of pools that
    /// stayed below their type's minimum team count are refunded as on a cancel.
    pub fn lock_game(&mut self, sender: &String, game_id: String) -> (r: Result<Response, GameError>)
        requires
            old(self).wf(),
            old(self).end_game_error(*sender, game_id@, true).is_none() ==> old(self).refunds(true).is_some(),
        ensures
            final(self).wf(),
            old(self).end_game_error(*sender, game_id@, true) matches Some(e) ==> r == Err::<Response, GameError>(e)
                && *final(self) == *old(self),
            old(self).end_game_error(*sender, game_id@, true).is_none() ==> (r matches Ok(resp) && resp.messages@.len() == 0
                && resp.attrs() == seq![("game_id"@, game_id@), ("game_status"@, "GAME_POOL_CLOSED"@)]
                && resp.data.is_none()
                && final(self).same_but_refunds(old(self))
                && final(self).games@ == saved(old(self).games@, game_id@, GameDetails { game_id, game_status: GAME_POOL_CLOSED })
                && final(self).pool_teams@ == old(self).refunds(true).unwrap().0
                && final(self).gaming_funds@ == old(self).refunds(true).unwrap().1),
    {
        self.end_game(sender, game_id, true)
    }
}


/// Books the refunds of the pools given (those short of teams only, or all)
/// on the team lists and gaming funds given; false where they do not fit (a
/// gamer's funds lack a pool fee, or a refund overflows), the tables then left
/// part-way.
fn book_refunds_in(
    teams: &mut Table<Vec<PoolTeamDetails>>,
    funds: &mut Table<u128>,
    pools: &Table<PoolDetails>,
    types: &Table<PoolTypeDetails>,
    platform_fee: u128,
    only_short: bool,
) -> (ok: bool)
    requires
        old(teams).wf(),
        old(funds).wf(),
        pools.wf(),
        types.wf(),
        pools_have_types(types@, pools@),
    ensures
        final(teams).wf(),
        final(funds).wf(),
        ok == refund_fold(old(teams)@, old(funds)@, pools@, types@, platform_fee, pools@.len(), only_short).is_some(),
        ok ==> refund_fold(old(teams)@, old(funds)@, pools@, types@, platform_fee, pools@.len(), only_short) == Some(
            (final(teams)@, final(funds)@),
        ),
{
    let ghost t0 = teams@;
    let ghost f0 = funds@;
    let ghost ps = pools@;
    let ghost ts = types@;
    let mut i: usize = 0;
    while i < pools.len()
        invariant
            ps == pools@,
            ts == types@,
            pools.wf(),
            types.wf(),
            teams.wf(),
            funds.wf(),
            i <= ps.len(),
            pools_have_types(ts, ps),
            refund_fold(t0, f0, ps, ts, platform_fee, i as nat, only_short) == Some((teams@, funds@)),
            t0 == old(teams)@,
            f0 == old(funds)@,
        decreases ps.len() - i,
    {
        let pool = pools.val_at(i);
        assert(has_key(ts, ps[i as int].1.pool_type@));
        let (pool_fee, min_teams) = match types.get(&pool.pool_type) {
            Some(pt) => (pt.pool_fee, pt.min_teams_for_pool),
            None => {
                proof {
                    assert(false);
                }
                (0, 0)
            },
        };
        if !(only_short && pool.current_teams_count >= min_teams) {
            let refund_amount = match pool_fee.checked_add(platform_fee) {
                Some(x) => x,
                None => {
                    proof {
                        assert(refund_fold(t0, f0, ps, ts, platform_fee, (i + 1) as nat, only_short).is_none());
                        if refund_fold(t0, f0, ps, ts, platform_fee, ps.len(), only_short).is_some() {
                            lemma_refund_fold_prefix(t0, f0, ps, ts, platform_fee, (i + 1) as nat, ps.len(), only_short);
                        }
                    }
                    return false;
                },
            };
            let k = pools.key_at(i).clone();
            let ghost t1 = teams@;
            let ghost f1 = funds@;
            let list = match teams.get(&k) {
                Some(l) => clone_teams(l),
                None => Vec::new(),
            };
            assert(list@ =~= teams_of(t1, k@));
            assert(refund_fold(t0, f0, ps, ts, platform_fee, (i + 1) as nat, only_short) == match deduct_fees(
                f1,
                list@,
                pool_fee,
            ) {
                None => None,
                Some(f2) => Some((saved(t1, k@, refund_list(list@, refund_amount)), f2)),
            });
            let mut updated: Vec<PoolTeamDetails> = Vec::new();
            let mut j: usize = 0;
            while j < list.len()
                invariant
                    j <= list@.len(),
                    funds.wf(),
                    teams.wf(),
                    teams@ == t1,
                    list@ == teams_of(t1, k@),
                    deduct_fees(f1, list@.take(j as int), pool_fee) == Some(funds@),
                    updated@ == refund_list(list@.take(j as int), refund_amount),
                    t0 == old(teams)@,
                    f0 == old(funds)@,
                    ps == pools@,
                    ts == types@,
                    i < ps.len(),
                    k@ == ps[i as int].0,
                    refund_fold(t0, f0, ps, ts, platform_fee, i as nat, only_short) == Some((t1, f1)),
                    refund_fold(t0, f0, ps, ts, platform_fee, (i + 1) as nat, only_short) == match deduct_fees(
                        f1,
                        list@,
                        pool_fee,
                    ) {
                        None => None,
                        Some(f2) => Some((saved(t1, k@, refund_list(list@, refund_amount)), f2)),
                    },
                decreases list@.len() - j,
            {
                proof {
                    assert(list@.take(j + 1).drop_last() =~= list@.take(j as int));
                }
                let tm = &list[j];
                let b = match funds.get(&tm.gamer_address) {
                    Some(b) => *b,
                    None => 0,
                };
                if b < pool_fee {
                    proof {
                        assert(list@.take(j + 1).last() == list@[j as int]);
                        assert(deduct_fees(f1, list@.take(j + 1), pool_fee).is_none());
                        if deduct_fees(f1, list@, pool_fee).is_some() {
                            lemma_deduct_fees_prefix(f1, list@, pool_fee, j + 1);
                        }
                        assert(refund_fold(t0, f0, ps, ts, platform_fee, (i + 1) as nat, only_short).is_none());
                        if refund_fold(t0, f0, ps, ts, platform_fee, ps.len(), only_short).is_some() {
                            lemma_refund_fold_prefix(t0, f0, ps, ts, platform_fee, (i + 1) as nat, ps.len(), only_short);
                        }
                    }
                    return false;
                }
                funds.save(tm.gamer_address.clone(), b - pool_fee);
                let mut u = clone_team(tm);
                u.refund_amount = refund_amount;
                u.claimed_refund = false;
                updated.push(u);
                assert(refund_list(list@.take(j + 1), refund_amount) =~= refund_list(list@.take(j as int), refund_amount).push(u));
                j = j + 1;
            }
            assert(list@.take(list@.len() as int) =~= list@);
            teams.save(k, updated);
        }
        i = i + 1;
    }
    true
}

/// `percentage` percent of `total`, rounded down; 0 where the product overflows.
pub open spec fn percent_of(total: u128, percentage: u32) -> u128 {
    (mul_or_zero(total, percentage as u128) / 100) as u128
}

/// The share of each platform wallet, in wallet name order.
pub open spec fn platform_transfers(ws: Seq<(Seq<char>, WalletPercentage)>, total: u128) -> Seq<WalletTransferDetails> {
    Seq::new(
        ws.len(),
        |i: int| WalletTransferDetails { wallet_address: ws[i].1.wallet_address, amount: percent_of(total, ws[i].1.percentage) },
    )
}

/// The share of each rake wallet, in list order.
pub open spec fn rake_transfers(rl: Seq<WalletPercentage>, rake: u128) -> Seq<WalletTransferDetails> {
    Seq::new(
        rl.len(),
        |i: int| WalletTransferDetails { wallet_address: rl[i].wallet_address, amount: percent_of(rake, rl[i].percentage) },
    )
}

/// The token transfers that pay out `d`.
pub open spec fn transfer_msgs(token: String, d: Seq<WalletTransferDetails>) -> Seq<Msg> {
    Seq::new(
        d.len(),
        |i: int| Msg::Token { contract: token, call: TokenCall::Transfer { recipient: d[i].wallet_address, amount: d[i].amount } },
    )
}

pub open spec fn winners_total(ws: Seq<GameResult>) -> nat
    decreases ws.len(),
{
    if ws.len() == 0 {
        0
    } else {
        winners_total(ws.drop_last()) + ws.last().reward_amount as nat
    }
}

/// Whether a game result names a team.
pub open spec fn winner_match(t: PoolTeamDetails, w: GameResult) -> bool {
    t.gamer_address@ == w.gamer_address@ && t.team_id@ == w.team_id@ && t.game_id@ == w.game_id@
}

/// A team with the reward, rank and points of the last game result that names it.
pub open spec fn apply_winners(t: PoolTeamDetails, ws: Seq<GameResult>) -> PoolTeamDetails
    decreases ws.len(),
{
    if ws.len() == 0 {
        t
    } else {
        let p = apply_winners(t, ws.drop_last());
        let w = ws.last();
        if winner_match(t, w) {
            PoolTeamDetails { reward_amount: w.reward_amount, team_rank: w.team_rank, team_points: w.team_points, ..p }
        } else {
            p
        }
    }
}

/// The rewards of the game results that name a team.
pub open spec fn matched_total(t: PoolTeamDetails, ws: Seq<GameResult>) -> nat
    decreases ws.len(),
{
    if ws.len() == 0 {
        0
    } else {
        matched_total(t, ws.drop_last()) + if winner_match(t, ws.last()) {
            ws.last().reward_amount as nat
        } else {
            0nat
        }
    }
}

/// The rewards handed to the teams of a list.
pub open spec fn given_total(l: Seq<PoolTeamDetails>, ws: Seq<GameResult>) -> nat
    decreases l.len(),
{
    if l.len() == 0 {
        0
    } else {
        given_total(l.drop_last(), ws) + matched_total(l.last(), ws)
    }
}

pub proof fn lemma_winners_total_prefix(ws: Seq<GameResult>, j: int)
    requires
        0 <= j <= ws.len(),
    ensures
        winners_total(ws.take(j)) <= winners_total(ws),
    decreases ws.len(),
{
    if j < ws.len() {
        assert(ws.drop_last().take(j) =~= ws.take(j));
        lemma_winners_total_prefix(ws.drop_last(), j);
    } else {
        assert(ws.take(j) =~= ws);
    }
}

pub proof fn lemma_matched_total_prefix(t: PoolTeamDetails, ws: Seq<GameResult>, j: int)
    requires
        0 <= j <= ws.len(),
    ensures
        matched_total(t, ws.take(j)) <= matched_total(t, ws),
    decreases ws.len(),
{
    if j < ws.len() {
        assert(ws.drop_last().take(j) =~= ws.take(j));
        lemma_matched_total_prefix(t, ws.drop_last(), j);
    } else {
        assert(ws.take(j) =~= ws);
    }
}

pub proof fn lemma_given_total_prefix(l: Seq<PoolTeamDetails>, ws: Seq<GameResult>, j: int)
    requires
        0 <= j <= l.len(),
    ensures
        given_total(l.take(j), ws) <= given_total(l, ws),
    decreases l.len(),
{
    if j < l.len() {
        assert(l.drop_last().take(j) =~= l.take(j));
        lemma_given_total_prefix(l.drop_last(), ws, j);
    } else {
        assert(l.take(j) =~= l);
    }
}

/// Builds the transfers of a list of wallet shares, noted as `action`.
pub fn transfer_to_multiple_wallets(token: &String, wallet_details: Vec<WalletTransferDetails>, action: &str) -> (resp: Response)
    ensures
        resp.messages@ == transfer_msgs(*token, wallet_details@),
        resp.attrs() == seq![("action"@, action@)],
        resp.data_text() == Some("Amount transferred"@),
{
    let mut resp = Response::empty();
    let mut i: usize = 0;
    while i < wallet_details.len()
        invariant
            i <= wallet_details@.len(),
            resp.messages@ == transfer_msgs(*token, wallet_details@.take(i as int)),
            resp.attrs().len() == 0,
            resp.data.is_none(),
        decreases wallet_details@.len() - i,
    {
        let w = &wallet_details[i];
        resp.add_msg(Msg::Token { contract: token.clone(), call: TokenCall::Transfer { recipient: w.wallet_address.clone(), amount: w.amount } });
        assert(transfer_msgs(*token, wallet_details@.take(i + 1)) =~= transfer_msgs(*token, wallet_details@.take(i as int)).push(
            Msg::Token { contract: *token, call: TokenCall::Transfer { recipient: w.wallet_address, amount: w.amount } },
        ));
        i = i + 1;
    }
    assert(wallet_details@.take(wallet_details@.len() as int) =~= wallet_details@);
    resp.add_attr("action", String::from_str(action));
    assert(resp.attrs() =~= seq![("action"@, action@)]);
    resp.data = Some(String::from_str("Amount transferred"));
    resp
}

impl GamingPool {
    /// The first check a reward distribution fails.
    pub open spec fn distribute_error(&self, sender: String, game_id: Seq<char>, pool_id: Seq<char>, game_winners: Seq<GameResult>) -> Option<GameError> {
        if !self.is_admin(sender@) {
            Some(GameError::Unauthorized { invoker: sender })
        } else if game_status(self.games@, game_id).is_none() {
            Some(GameError::GameStatusUnavailable)
        } else if game_status(self.games@, game_id) == Some(GAME_CANCELLED) {
            Some(GameError::RewardsForCancelledGame)
        } else if game_status(self.games@, game_id) == Some(GAME_POOL_OPEN) {
            Some(GameError::RewardsForOpenGame)
        } else if lookup(self.pools@, pool_id).is_none() {
            Some(GameError::NoPoolDetails)
        } else if lookup(self.pools@, pool_id).unwrap().rewards_distributed {
            Some(GameError::RewardsAlreadyDistributed)
        } else if lookup(self.pool_types@, lookup(self.pools@, pool_id).unwrap().pool_type@).is_none() {
            Some(GameError::RewardPoolTypeUnknown)
        } else if self.pool_total(pool_id) <= winners_total(game_winners) {
            Some(GameError::RewardAmountsMismatch)
        } else {
            None
        }
    }

    /// Pool fee times team count of a pool, or 0 where that overflows.
    pub open spec fn pool_total(&self, pool_id: Seq<char>) -> u128 {
        let p = lookup(self.pools@, pool_id).unwrap();
        let t = lookup(self.pool_types@, p.pool_type@).unwrap();
        mul_or_zero(t.pool_fee, p.current_teams_count as u128)
    }

    /// The distribution runs without arithmetic overflow.
    pub open spec fn distribute_panic_free(&self, sender: Seq<char>, game_id: Seq<char>, pool_id: Seq<char>, game_winners: Seq<GameResult>) -> bool {
        self.is_admin(sender) && game_status(self.games@, game_id).is_some()
            && game_status(self.games@, game_id) != Some(GAME_CANCELLED)
            && game_status(self.games@, game_id) != Some(GAME_POOL_OPEN)
            && lookup(self.pools@, pool_id).is_some()
            && !lookup(self.pools@, pool_id).unwrap().rewards_distributed
            && lookup(self.pool_types@, lookup(self.pools@, pool_id).unwrap().pool_type@).is_some() ==> {
            &&& winners_total(game_winners) <= u128::MAX
            &&& (self.pool_total(pool_id) > winners_total(game_winners) ==> given_total(teams_of(self.pool_teams@, pool_id), game_winners) <= u128::MAX)
        }
    }

    /// The payouts of a distribution: platform wallets first, then the rake wallets of the pool type.
    pub open spec fn distribution_transfers(&self, pool_id: Seq<char>, game_winners: Seq<GameResult>) -> Seq<WalletTransferDetails> {
        let p = lookup(self.pools@, pool_id).unwrap();
        let t = lookup(self.pool_types@, p.pool_type@).unwrap();
        let platform_total = mul_or_zero(self.config.platform_fee, p.current_teams_count as u128);
        let rake = (self.pool_total(pool_id) - winners_total(game_winners)) as u128;
        platform_transfers(self.platform_wallets@, platform_total) + rake_transfers(t.rake_list@, rake)
    }

    /// Everything but games, pools and team lists is as before.
    pub open spec fn same_but_results(&self, o: &Self) -> bool {
        &&& self.config == o.config
        &&& self.game_result_template == o.game_result_template
        &&& self.pool_count == o.pool_count
        &&& self.pool_types == o.pool_types
        &&& self.platform_wallets == o.platform_wallets
        &&& self.gaming_funds == o.gaming_funds
    }

    /// Admin only: settles a pool of a locked or completed game. The game
    /// becomes completed and the pool settled; each team named in the game
    /// results gets its reward, rank and points to collect. The pool takes in
    /// pool fee times team count; what is left of it after the rewards (the
    /// rake) and the platform fees of the pool are paid out by percentage, to
    /// the platform wallets and to the rake wallets of the pool type.
    pub fn game_pool_reward_distribute(&mut self, sender: &String, game_id: String, pool_id: String, game_winners: Vec<GameResult>) -> (r: Result<Response, GameError>)
        requires
            old(self).wf(),
            old(self).distribute_panic_free(sender@, game_id@, pool_id@, game_winners@),
        ensures
            final(self).wf(),
            old(self).distribute_error(*sender, game_id@, pool_id@, game_winners@) matches Some(e) ==> r == Err::<Response, GameError>(e)
                && *final(self) == *old(self),
            old(self).distribute_error(*sender, game_id@, pool_id@, game_winners@).is_none() ==> ({
                let p = lookup(old(self).pools@, pool_id@).unwrap();
                &&& r matches Ok(resp)
                    && resp.messages@ == transfer_msgs(old(self).config.minting_contract_address, old(self).distribution_transfers(pool_id@, game_winners@))
                    && resp.attrs() == seq![
                        ("action"@, "rake_and_platform_fee"@),
                        ("game_status"@, "GAME_COMPLETED"@),
                        ("game_id"@, game_id@),
                        ("pool_status"@, "POOL_REWARD_DISTRIBUTED"@),
                        ("pool_id"@, pool_id@),
                    ]
                    && resp.data_text() == Some("Amount transferred"@)
                &&& final(self).same_but_results(old(self))
                &&& final(self).games@ == saved(old(self).games@, game_id@, GameDetails { game_id, game_status: GAME_COMPLETED })
                &&& final(self).pools@ == saved(
                    old(self).pools@,
                    pool_id@,
                    PoolDetails {
                        game_id,
                        pool_id,
                        pool_type: p.pool_type,
                        current_teams_count: p.current_teams_count,
                        rewards_distributed: true,
                    },
                )
                &&& final(self).pool_teams@ == saved(
                    old(self).pool_teams@,
                    pool_id@,
                    teams_of(old(self).pool_teams@, pool_id@).map_values(|t: PoolTeamDetails| apply_winners(t, game_winners@)),
                )
            }),
    {
        if !self.config.admin_address.eq(sender) {
            return Err(GameError::Unauthorized { invoker: sender.clone() });
        }
        match self.games.get(&game_id) {
            None => {
                return Err(GameError::GameStatusUnavailable);
            },
            Some(g) => {
                if g.game_status == GAME_CANCELLED {
                    return Err(GameError::RewardsForCancelledGame);
                }
                if g.game_status == GAME_POOL_OPEN {
                    return Err(GameError::RewardsForOpenGame);
                }
            },
        }
        let pool = match self.pools.get(&pool_id) {
            None => {
                return Err(GameError::NoPoolDetails);
            },
            Some(p) => clone_pool(p),
        };
        if pool.rewards_distributed {
            return Err(GameError::RewardsAlreadyDistributed);
        }
        let pt = match self.pool_types.get(&pool.pool_type) {
            None => {
                return Err(GameError::RewardPoolTypeUnknown);
            },
            Some(t) => clone_pool_type(t),
        };
        let total_reward = checked_mul_or_zero(pt.pool_fee, pool.current_teams_count as u128);
        let mut winner_rewards: u128 = 0;
        let mut i: usize = 0;
        while i < game_winners.len()
            invariant
                i <= game_winners@.len(),
                winner_rewards == winners_total(game_winners@.take(i as int)),
                winners_total(game_winners@) <= u128::MAX,
            decreases game_winners@.len() - i,
        {
            proof {
                assert(game_winners@.take(i + 1).drop_last() =~= game_winners@.take(i as int));
                lemma_winners_total_prefix(game_winners@, i + 1);
            }
            winner_rewards = winner_rewards + game_winners[i].reward_amount;
            i = i + 1;
        }
        assert(game_winners@.take(game_winners@.len() as int) =~= game_winners@);
        if total_reward <= winner_rewards {
            return Err(GameError::RewardAmountsMismatch);
        }
        let rake_amount = total_reward - winner_rewards;
        let ghost t0 = self.pool_teams@;
        let ghost ws = game_winners@;
        self.games.save(game_id.clone(), GameDetails { game_id: game_id.clone(), game_status: GAME_COMPLETED });
        self.pools.save(
            pool_id.clone(),
            PoolDetails {
                game_id: game_id.clone(),
                pool_id: pool_id.clone(),
                pool_type: pool.pool_type,
                current_teams_count: pool.current_teams_count,
                rewards_distributed: true,
            },
        );
        // platform fees, by wallet name
        let mut transfers: Vec<WalletTransferDetails> = Vec::new();
        let total_platform_fee = checked_mul_or_zero(self.config.platform_fee, pool.current_teams_count as u128);
        let mut w: usize = 0;
        while w < self.platform_wallets.len()
            invariant
                w <= self.platform_wallets@.len(),
                transfers@ == platform_transfers(self.platform_wallets@.take(w as int), total_platform_fee),
            decreases self.platform_wallets@.len() - w,
        {
            let wp = self.platform_wallets.val_at(w);
            let amount = checked_mul_or_zero(total_platform_fee, wp.percentage as u128) / 100;
            transfers.push(WalletTransferDetails { wallet_address: wp.wallet_address.clone(), amount });
            assert(transfers@ =~= platform_transfers(self.platform_wallets@.take(w + 1), total_platform_fee));
            w = w + 1;
        }
        assert(self.platform_wallets@.take(self.platform_wallets@.len() as int) =~= self.platform_wallets@);
        // results of the pool's teams
        let teams = match self.pool_teams.get(&pool_id) {
            Some(l) => clone_teams(l),
            None => Vec::new(),
        };
        assert(teams@ =~= teams_of(t0, pool_id@));
        let mut updated: Vec<PoolTeamDetails> = Vec::new();
        let mut given: u128 = 0;
        let mut j: usize = 0;
        while j < teams.len()
            invariant
                j <= teams@.len(),
                ws == game_winners@,
                updated@ == teams@.take(j as int).map_values(|t: PoolTeamDetails| apply_winners(t, ws)),
                given == given_total(teams@.take(j as int), ws),
                given_total(teams@, ws) <= u128::MAX,
            decreases teams@.len() - j,
        {
            proof {
                assert(teams@.take(j + 1).drop_last() =~= teams@.take(j as int));
                lemma_given_total_prefix(teams@, ws, j + 1);
            }
            let team = &teams[j];
            let mut u = clone_team(team);
            let ghost given_before = given;
            let mut k: usize = 0;
            while k < game_winners.len()
                invariant
                    k <= ws.len(),
                    ws == game_winners@,
                    u == apply_winners(*team, ws.take(k as int)),
                    given == given_before + matched_total(*team, ws.take(k as int)),
                    given_before + matched_total(*team, ws) <= u128::MAX,
                decreases ws.len() - k,
            {
                proof {
                    assert(ws.take(k + 1).drop_last() =~= ws.take(k as int));
                    lemma_matched_total_prefix(*team, ws, k + 1);
                }
                let win = &game_winners[k];
                if team.gamer_address.eq(&win.gamer_address) && team.team_id.eq(&win.team_id) && team.game_id.eq(&win.game_id) {
                    u.reward_amount = win.reward_amount;
                    u.team_rank = win.team_rank;
                    u.team_points = win.team_points;
                    given = given + win.reward_amount;
                }
                k = k + 1;
            }
            assert(ws.take(ws.len() as int) =~= ws);
            updated.push(u);
            assert(updated@ =~= teams@.take(j + 1).map_values(|t: PoolTeamDetails| apply_winners(t, ws)));
            j = j + 1;
        }
        assert(teams@.take(teams@.len() as int) =~= teams@);
        self.pool_teams.save(pool_id.clone(), updated);
        // rake, by the pool type's rake list
        let mut r: usize = 0;
        let ghost before = transfers@;
        while r < pt.rake_list.len()
            invariant
                r <= pt.rake_list@.len(),
                transfers@ == before + rake_transfers(pt.rake_list@.take(r as int), rake_amount),
            decreases pt.rake_list@.len() - r,
        {
            let wp = &pt.rake_list[r];
            let amount = checked_mul_or_zero(rake_amount, wp.percentage as u128) / 100;
            transfers.push(WalletTransferDetails { wallet_address: wp.wallet_address.clone(), amount });
            assert(transfers@ =~= before + rake_transfers(pt.rake_list@.take(r + 1), rake_amount));
            r = r + 1;
        }
        assert(pt.rake_list@.take(pt.rake_list@.len() as int) =~= pt.rake_list@);
        let mut resp = transfer_to_multiple_wallets(&self.config.minting_contract_address, transfers, "rake_and_platform_fee");
        resp.add_attr("game_status", String::from_str("GAME_COMPLETED"));
        resp.add_attr("game_id", game_id);
        resp.add_attr("pool_status", String::from_str("POOL_REWARD_DISTRIBUTED"));
        resp.add_attr("pool_id", pool_id);
        assert(resp.attrs() =~= seq![
            ("action"@, "rake_and_platform_fee"@),
            ("game_status"@, "GAME_COMPLETED"@),
            ("game_id"@, game_id@),
            ("pool_status"@, "POOL_REWARD_DISTRIBUTED"@),
            ("pool_id"@, pool_id@),
        ]);
        Ok(resp)
    }
}

/// The command carried by tokens sent to the contract: a bid for a team in a pool.
pub struct GamePoolBidSubmitCommand {
    pub gamer: String,
    pub pool_type: String,
    pub pool_id: String,
    pub game_id: String,
    pub team_id: String,
}

/// What tokens sent to the contract are for.
pub enum ReceivedMsg {
    GamePoolBidSubmit(GamePoolBidSubmitCommand),
}

impl GamingPool {
    /// Tokens received from the token contract, with the command that came along.
    pub fn received_message(&mut self, sender: &String, amount: u128, msg: ReceivedMsg) -> (r: Result<Response, GameError>)
        requires
            old(self).wf(),
            msg matches ReceivedMsg::GamePoolBidSubmit(c) ==> old(self).bid_panic_free(sender@, c.gamer@, c.pool_type@, c.pool_id@, c.game_id@),
        ensures
            final(self).wf(),
            msg matches ReceivedMsg::GamePoolBidSubmit(c) ==> old(self).bid_outcome(
                final(self),
                r,
                *sender,
                c.gamer,
                c.pool_type,
                c.pool_id,
                c.game_id,
                c.team_id,
                amount,
            ),
    {
        match msg {
            ReceivedMsg::GamePoolBidSubmit(c) => self.game_pool_bid_submit(
                sender,
                c.gamer,
                c.pool_type,
                c.pool_id,
                c.game_id,
                c.team_id,
                amount,
            ),
        }
    }
}

/// Sums the rewards of game results; none where the sum does not fit.
fn winners_sum_checked(ws: &Vec<GameResult>) -> (r: Option<u128>)
    ensures
        match r {
            Some(x) => x == winners_total(ws@),
            None => winners_total(ws@) > u128::MAX,
        },
{
    let mut total: u128 = 0;
    let mut i: usize = 0;
    while i < ws.len()
        invariant
            i <= ws@.len(),
            total == winners_total(ws@.take(i as int)),
        decreases ws@.len() - i,
    {
        proof {
            assert(ws@.take(i + 1).drop_last() =~= ws@.take(i as int));
            lemma_winners_total_prefix(ws@, i + 1);
        }
        match total.checked_add(ws[i].reward_amount) {
            Some(x) => {
                total = x;
            },
            None => {
                return None;
            },
        }
        i = i + 1;
    }
    assert(ws@.take(ws@.len() as int) =~= ws@);
    Some(total)
}

/// Whether the rewards handed to the teams of a list add up to an amount.
fn given_fits(teams: &Vec<PoolTeamDetails>, ws: &Vec<GameResult>) -> (r: bool)
    ensures
        r == (given_total(teams@, ws@) <= u128::MAX),
{
    let mut given: u128 = 0;
    let mut j: usize = 0;
    while j < teams.len()
        invariant
            j <= teams@.len(),
            given == given_total(teams@.take(j as int), ws@),
        decreases teams@.len() - j,
    {
        proof {
            assert(teams@.take(j + 1).drop_last() =~= teams@.take(j as int));
            lemma_given_total_prefix(teams@, ws@, j + 1);
        }
        let team = &teams[j];
        let ghost given_before = given;
        let mut k: usize = 0;
        while k < ws.len()
            invariant
                k <= ws@.len(),
                j < teams@.len(),
                *team == teams@[j as int],
                given == given_before + matched_total(*team, ws@.take(k as int)),
                given_before == given_total(teams@.take(j as int), ws@),
                given_total(teams@.take(j + 1), ws@) <= given_total(teams@, ws@),
                given_total(teams@.take(j + 1), ws@) == given_before + matched_total(*team, ws@),
            decreases ws@.len() - k,
        {
            proof {
                assert(ws@.take(k + 1).drop_last() =~= ws@.take(k as int));
                lemma_matched_total_prefix(*team, ws@, k + 1);
            }
            let win = &ws[k];
            if team.gamer_address.eq(&win.gamer_address) && team.team_id.eq(&win.team_id) && team.game_id.eq(&win.game_id) {
                match given.checked_add(win.reward_amount) {
                    Some(x) => {
                        given = x;
                    },
                    None => {
                        return false;
                    },
                }
            }
            k = k + 1;
        }
        assert(ws@.take(ws@.len() as int) =~= ws@);
        j = j + 1;
    }
    assert(teams@.take(teams@.len() as int) =~= teams@);
    true
}

impl GamingPool {
    /// Whether a reward distribution runs without arithmetic overflow, as
    /// the distribution itself needs.
    pub fn distribution_ready(&self, sender: &String, game_id: &String, pool_id: &String, game_winners: &Vec<GameResult>) -> (r: bool)
        requires
            self.wf(),
        ensures
            r == self.distribute_panic_free(sender@, game_id@, pool_id@, game_winners@),
    {
        if !self.config.admin_address.eq(sender) {
            return true;
        }
        match self.games.get(game_id) {
            None => {
                return true;
            },
            Some(g) => {
                if g.game_status == GAME_CANCELLED || g.game_status == GAME_POOL_OPEN {
                    return true;
                }
            },
        }
        let pool = match self.pools.get(pool_id) {
            None => {
                return true;
            },
            Some(p) => p,
        };
        if pool.rewards_distributed {
            return true;
        }
        let pt = match self.pool_types.get(&pool.pool_type) {
            None => {
                return true;
            },
            Some(t) => t,
        };
        let winners = match winners_sum_checked(game_winners) {
            None => {
                return false;
            },
            Some(x) => x,
        };
        let total = checked_mul_or_zero(pt.pool_fee, pool.current_teams_count as u128);
        if total <= winners {
            return true;
        }
        match self.pool_teams.get(pool_id) {
            None => true,
            Some(teams) => given_fits(teams, game_winners),
        }
    }
}

} // verus!
