//! Vesting schedules of the token's categories: the schedules set up at
//! instantiation, and what a schedule has vested at a given time.
use vstd::prelude::*;
use vstd::string::StringExecFns;
use crate::amounts::{checked_mul_or_zero, mul_or_zero};
use crate::club_staking::NANOS_PER_SECOND;
use crate::token::{Token, TokenError, VestingDetails, VestingView, opt_text};
use crate::table::{has_key, lookup};

verus! {

/// Thirty days, the length of a cliff month, in seconds.
pub const CLIFF_MONTH_SECONDS: u64 = 2592000;

/// The fixed amount a schedule grants when it is asked before its start
/// (capped by the total like any other amount).
pub const BEFORE_START_AMOUNT: u128 = 1234;

/// The main wallet, which funds the categories.
pub open spec fn main_wallet() -> Seq<char> {
    "terra1t3czdl5h4w4qwgkzs80fdstj0z7rfv9v2j6uh3"@
}

/// The gamified airdrop category.
pub open spec fn gamified_airdrop_wallet() -> Seq<char> {
    "terra144tlfg2zqtphwfpwrtqvvzyl362a406v2r08rj"@
}

/// The advisors category.
pub open spec fn advisor_wallet() -> Seq<char> {
    "terra17yvv240qq4c6alyrcgvk6wnf402u8gp3d3nxgm"@
}

/// The private sale category.
pub open spec fn private_sale_wallet() -> Seq<char> {
    "terra1e7maadq8sdk6aqaz2vwzxrsfr3tu8svz2sw850"@
}

/// The first private sale investor.
pub open spec fn nitin_wallet() -> Seq<char> {
    "terra1jq6ffpwfj08rx9wxu02ussv6pequm0tkzfjq22"@
}

/// The second private sale investor.
pub open spec fn ajay_wallet() -> Seq<char> {
    "terra1mk9nav0hv5r8f7dwymjxml8yft78qkt6fuqae7"@
}

/// The third private sale investor.
pub open spec fn sameer_wallet() -> Seq<char> {
    "terra1cm7rklc6m2r8klnqj505ymntf3xrqtatthc64e"@
}

pub fn main_wallet_address() -> (s: String)
    ensures
        s@ == main_wallet(),
{
    String::from_str("terra1t3czdl5h4w4qwgkzs80fdstj0z7rfv9v2j6uh3")
}

pub fn gamified_airdrop_address() -> (s: String)
    ensures
        s@ == gamified_airdrop_wallet(),
{
    String::from_str("terra144tlfg2zqtphwfpwrtqvvzyl362a406v2r08rj")
}

pub fn advisor_address() -> (s: String)
    ensures
        s@ == advisor_wallet(),
{
    String::from_str("terra17yvv240qq4c6alyrcgvk6wnf402u8gp3d3nxgm")
}

pub fn private_sale_address() -> (s: String)
    ensures
        s@ == private_sale_wallet(),
{
    String::from_str("terra1e7maadq8sdk6aqaz2vwzxrsfr3tu8svz2sw850")
}

pub fn nitin_address() -> (s: String)
    ensures
        s@ == nitin_wallet(),
{
    String::from_str("terra1jq6ffpwfj08rx9wxu02ussv6pequm0tkzfjq22")
}

pub fn ajay_address() -> (s: String)
    ensures
        s@ == ajay_wallet(),
{
    String::from_str("terra1mk9nav0hv5r8f7dwymjxml8yft78qkt6fuqae7")
}

pub fn sameer_address() -> (s: String)
    ensures
        s@ == sameer_wallet(),
{
    String::from_str("terra1cm7rklc6m2r8klnqj505ymntf3xrqtatthc64e")
}

/// What a schedule vests for a wallet: (wallet, category, amount).
#[derive(Debug, PartialEq, Eq)]
pub struct VestingInfo {
    pub spender_address: String,
    pub category_address: Option<String>,
    pub amount: u128,
}

impl View for VestingInfo {
    type V = (Seq<char>, Option<Seq<char>>, u128);

    open spec fn view(&self) -> (Seq<char>, Option<Seq<char>>, u128) {
        (self.spender_address@, opt_text(self.category_address), self.amount)
    }
}

pub open spec fn infos_view(s: Seq<VestingInfo>) -> Seq<(Seq<char>, Option<Seq<char>>, u128)> {
    s.map_values(|i: VestingInfo| i@)
}

pub fn clone_opt_text(s: &Option<String>) -> (r: Option<String>)
    ensures
        r == *s,
{
    match s {
        Some(t) => Some(t.clone()),
        None => None,
    }
}

pub fn clone_schedule(v: &VestingDetails) -> (r: VestingDetails)
    ensures
        r == *v,
{
    VestingDetails {
        vesting_start_timestamp: v.vesting_start_timestamp,
        initial_vesting_count: v.initial_vesting_count,
        initial_vesting_consumed: v.initial_vesting_consumed,
        vesting_periodicity: v.vesting_periodicity,
        vesting_count_per_period: v.vesting_count_per_period,
        total_vesting_token_count: v.total_vesting_token_count,
        total_claimed_tokens_till_now: v.total_claimed_tokens_till_now,
        last_claimed_timestamp: v.last_claimed_timestamp,
        tokens_available_to_claim: v.tokens_available_to_claim,
        last_vesting_timestamp: v.last_vesting_timestamp,
        cliff_period: v.cliff_period,
        category_address: clone_opt_text(&v.category_address),
    }
}

/// The whole seconds of a timestamp in nanoseconds.
pub open spec fn secs(t: u64) -> int {
    (t / NANOS_PER_SECOND) as int
}

/// The second at which a schedule's cliff ends.
pub open spec fn cliff_end(v: VestingView) -> int {
    secs(v.vesting_start_timestamp) + v.cliff_period * CLIFF_MONTH_SECONDS
}

/// The vesting periods already vested: those completed between the end of
/// the cliff and the last vesting; none where the last vesting was not after
/// the cliff (a schedule never vested counts from the end of its cliff).
pub open spec fn periods_vested(v: VestingView) -> int {
    if secs(v.last_vesting_timestamp) > cliff_end(v) {
        (secs(v.last_vesting_timestamp) - cliff_end(v)) / (v.vesting_periodicity as int)
    } else {
        0
    }
}

/// The vesting periods completed since the end of the cliff and not yet
/// vested; none before the cliff ends.
pub open spec fn periods_due(v: VestingView, now: u64) -> int {
    if secs(now) > cliff_end(v) {
        (secs(now) - cliff_end(v)) / (v.vesting_periodicity as int) - periods_vested(v)
    } else {
        0
    }
}

/// The part of the initial seed not yet consumed, once the cliff has ended.
pub open spec fn seed_due(v: VestingView, now: u64) -> int {
    if secs(now) >= cliff_end(v) && v.initial_vesting_consumed < v.initial_vesting_count {
        v.initial_vesting_count - v.initial_vesting_consumed
    } else {
        0
    }
}

/// The tokens newly vested: before the schedule's start the fixed amount
/// granted then; from the start the periods due (none where that overflows)
/// and the seed not yet consumed.
pub open spec fn fresh_tokens(v: VestingView, now: u64) -> int {
    if secs(now) < secs(v.vesting_start_timestamp) {
        BEFORE_START_AMOUNT as int
    } else {
        mul_or_zero(v.vesting_count_per_period, periods_due(v, now) as u128) + seed_due(v, now)
    }
}

/// The tokens newly vested, capped so that claimed, available and new tokens
/// stay within the total.
pub open spec fn tokens_due(v: VestingView, now: u64) -> int {
    let t = fresh_tokens(v, now);
    if v.total_vesting_token_count < t + v.total_claimed_tokens_till_now + v.tokens_available_to_claim {
        v.total_vesting_token_count - (v.total_claimed_tokens_till_now + v.tokens_available_to_claim)
    } else {
        t
    }
}

/// The vesting computation of a schedule runs without overflow or underflow
/// at `now`: the cliff's end is a time, the last vesting is not after now,
/// the sums fit an amount, and the claimed and available tokens are within
/// the total where the cap applies.
pub open spec fn vesting_computable(v: VestingView, now: u64) -> bool {
    v.vesting_periodicity > 0 ==> {
        &&& cliff_end(v) <= u64::MAX
        &&& periods_due(v, now) >= 0
        &&& fresh_tokens(v, now) + v.total_claimed_tokens_till_now + v.tokens_available_to_claim <= u128::MAX
        &&& tokens_due(v, now) >= 0
    }
}

/// What a schedule vests for `wallet` at `now`; schedules without a period vest nothing.
pub open spec fn vested_now(wallet: Seq<char>, v: VestingView, now: u64) -> Result<
    (Seq<char>, Option<Seq<char>>, u128),
    TokenError,
> {
    if v.vesting_periodicity == 0 {
        Err(TokenError::NoVestingForAddress)
    } else {
        Ok((wallet, v.category_address, tokens_due(v, now) as u128))
    }
}

/// Computes what a schedule vests for a wallet at `now`.
pub fn calculate_tokens_for_this_period(wallet_address: String, now: u64, vd: VestingDetails) -> (r: Result<
    VestingInfo,
    TokenError,
>)
    requires
        vesting_computable(vd@, now),
    ensures
        match vested_now(wallet_address@, vd@, now) {
            Ok(v) => r matches Ok(i) && i@ == v,
            Err(e) => r == Err::<VestingInfo, TokenError>(e),
        },
{
    if vd.vesting_periodicity == 0 {
        return Err(TokenError::NoVestingForAddress);
    }
    let p = vd.vesting_periodicity;
    let now_seconds = now / NANOS_PER_SECOND;
    let start_seconds = vd.vesting_start_timestamp / NANOS_PER_SECOND;
    assert(vd.cliff_period * CLIFF_MONTH_SECONDS <= u64::MAX);
    let cliff_end_seconds = start_seconds + vd.cliff_period * CLIFF_MONTH_SECONDS;
    let last_seconds = vd.last_vesting_timestamp / NANOS_PER_SECOND;
    let vested_intervals = if last_seconds > cliff_end_seconds {
        (last_seconds - cliff_end_seconds) / p
    } else {
        0
    };
    let mut intervals: u64 = 0;
    if now_seconds > cliff_end_seconds {
        let total_intervals = (now_seconds - cliff_end_seconds) / p;
        intervals = total_intervals - vested_intervals;
    }
    assert(intervals == periods_due(vd@, now));
    let seed = if now_seconds >= cliff_end_seconds && vd.initial_vesting_consumed < vd.initial_vesting_count {
        vd.initial_vesting_count - vd.initial_vesting_consumed
    } else {
        0
    };
    assert(seed == seed_due(vd@, now));
    let mut tokens = if now_seconds < start_seconds {
        BEFORE_START_AMOUNT
    } else {
        checked_mul_or_zero(vd.vesting_count_per_period, intervals as u128) + seed
    };
    let claimed_and_available = vd.total_claimed_tokens_till_now + vd.tokens_available_to_claim;
    if vd.total_vesting_token_count < tokens + claimed_and_available {
        tokens = vd.total_vesting_token_count - claimed_and_available;
    }
    Ok(VestingInfo {
        spender_address: wallet_address,
        category_address: vd.category_address,
        amount: tokens,
    })
}

/// Whether the vesting computation of a schedule runs without overflow or
/// underflow at `now`.
pub fn vesting_computable_at(vd: &VestingDetails, now: u64) -> (r: bool)
    ensures
        r == vesting_computable(vd@, now),
{
    let p = vd.vesting_periodicity;
    if p == 0 {
        return true;
    }
    let now_seconds = now / NANOS_PER_SECOND;
    let start_seconds = vd.vesting_start_timestamp / NANOS_PER_SECOND;
    let cliff = match vd.cliff_period.checked_mul(CLIFF_MONTH_SECONDS) {
        Some(c) => c,
        None => {
            return false;
        },
    };
    let cliff_end_seconds = match start_seconds.checked_add(cliff) {
        Some(c) => c,
        None => {
            return false;
        },
    };
    let last_seconds = vd.last_vesting_timestamp / NANOS_PER_SECOND;
    let vested_intervals = if last_seconds > cliff_end_seconds {
        (last_seconds - cliff_end_seconds) / p
    } else {
        0
    };
    let mut intervals: u64 = 0;
    if now_seconds > cliff_end_seconds {
        let total_intervals = (now_seconds - cliff_end_seconds) / p;
        if total_intervals < vested_intervals {
            return false;
        }
        intervals = total_intervals - vested_intervals;
    }
    assert(intervals == periods_due(vd@, now));
    let seed = if now_seconds >= cliff_end_seconds && vd.initial_vesting_consumed < vd.initial_vesting_count {
        vd.initial_vesting_count - vd.initial_vesting_consumed
    } else {
        0
    };
    assert(seed == seed_due(vd@, now));
    let tokens = if now_seconds < start_seconds {
        BEFORE_START_AMOUNT
    } else {
        match checked_mul_or_zero(vd.vesting_count_per_period, intervals as u128).checked_add(seed) {
            Some(x) => x,
            None => {
                return false;
            },
        }
    };
    let claimed_and_available = match vd.total_claimed_tokens_till_now.checked_add(vd.tokens_available_to_claim) {
        Some(x) => x,
        None => {
            return false;
        },
    };
    if tokens.checked_add(claimed_and_available).is_none() {
        return false;
    }
    vd.total_vesting_token_count >= claimed_and_available
}

/// The schedule of a wallet; meaningful where it has one.
pub open spec fn schedule_of(t: Seq<(Seq<char>, VestingView)>, wallet: Seq<char>) -> VestingView {
    lookup(t, wallet).unwrap()
}

/// The wallet has a schedule that can be computed at `now`.
pub open spec fn schedule_ready(t: Seq<(Seq<char>, VestingView)>, wallet: Seq<char>, now: u64) -> bool {
    has_key(t, wallet) && vesting_computable(schedule_of(t, wallet), now)
}

/// What the categories that receive tokens from the main wallet are due at
/// `now`: the gamified airdrop, then the private sale.
pub open spec fn transfer_details(t: Seq<(Seq<char>, VestingView)>, now: u64) -> Result<
    Seq<(Seq<char>, Option<Seq<char>>, u128)>,
    TokenError,
> {
    let ga = vested_now(gamified_airdrop_wallet(), schedule_of(t, gamified_airdrop_wallet()), now);
    let ps = vested_now(private_sale_wallet(), schedule_of(t, private_sale_wallet()), now);
    match ga {
        Err(e) => Err(e),
        Ok(a) => match ps {
            Err(e) => Err(e),
            Ok(b) => Ok(seq![a, b]),
        },
    }
}

/// A vested amount joins the list where it is not zero.
pub open spec fn keep_positive(
    s: Seq<(Seq<char>, Option<Seq<char>>, u128)>,
    i: (Seq<char>, Option<Seq<char>>, u128),
) -> Seq<(Seq<char>, Option<Seq<char>>, u128)> {
    if i.2 > 0 {
        s.push(i)
    } else {
        s
    }
}

/// What the private sale investors are due at `now`, leaving out those due nothing.
pub open spec fn vesting_details_due(t: Seq<(Seq<char>, VestingView)>, now: u64) -> Result<
    Seq<(Seq<char>, Option<Seq<char>>, u128)>,
    TokenError,
> {
    let n = vested_now(nitin_wallet(), schedule_of(t, nitin_wallet()), now);
    let a = vested_now(ajay_wallet(), schedule_of(t, ajay_wallet()), now);
    let s = vested_now(sameer_wallet(), schedule_of(t, sameer_wallet()), now);
    match n {
        Err(e) => Err(e),
        Ok(x) => match a {
            Err(e) => Err(e),
            Ok(y) => match s {
                Err(e) => Err(e),
                Ok(z) => Ok(keep_positive(keep_positive(keep_positive(Seq::empty(), x), y), z)),
            },
        },
    }
}

/// The amounts of a list of vested amounts, summed.
pub open spec fn infos_total(s: Seq<(Seq<char>, Option<Seq<char>>, u128)>) -> nat
    decreases s.len(),
{
    if s.len() == 0 {
        0
    } else {
        infos_total(s.drop_last()) + s.last().2 as nat
    }
}

pub proof fn lemma_infos_total_prefix(s: Seq<(Seq<char>, Option<Seq<char>>, u128)>, k: int)
    requires
        0 <= k <= s.len(),
    ensures
        infos_total(s.take(k)) <= infos_total(s),
    decreases s.len(),
{
    if k < s.len() {
        assert(s.drop_last().take(k) =~= s.take(k));
        lemma_infos_total_prefix(s.drop_last(), k);
    } else {
        assert(s.take(k) =~= s);
    }
}

/// Sums the amounts of a list of vested amounts.
pub fn calculate_total_distribution(distribution_details: &Vec<VestingInfo>) -> (r: u128)
    requires
        infos_total(infos_view(distribution_details@)) <= u128::MAX,
    ensures
        r == infos_total(infos_view(distribution_details@)),
{
    let ghost s = infos_view(distribution_details@);
    let mut total: u128 = 0;
    let mut i: usize = 0;
    while i < distribution_details.len()
        invariant
            i <= s.len(),
            s == infos_view(distribution_details@),
            infos_total(s) <= u128::MAX,
            total == infos_total(s.take(i as int)),
        decreases s.len() - i,
    {
        proof {
            assert(s.take(i + 1).drop_last() =~= s.take(i as int));
            lemma_infos_total_prefix(s, i + 1);
        }
        total = total + distribution_details[i].amount;
        i = i + 1;
    }
    assert(s.take(s.len() as int) =~= s);
    total
}

/// Sums the amounts of a list of vested amounts; none where the sum does not fit.
pub fn total_distribution_checked(distribution_details: &Vec<VestingInfo>) -> (r: Option<u128>)
    ensures
        match r {
            Some(x) => x == infos_total(infos_view(distribution_details@)),
            None => infos_total(infos_view(distribution_details@)) > u128::MAX,
        },
{
    let ghost s = infos_view(distribution_details@);
    let mut total: u128 = 0;
    let mut i: usize = 0;
    while i < distribution_details.len()
        invariant
            i <= s.len(),
            s == infos_view(distribution_details@),
            total == infos_total(s.take(i as int)),
        decreases s.len() - i,
    {
        proof {
            assert(s.take(i + 1).drop_last() =~= s.take(i as int));
            lemma_infos_total_prefix(s, i + 1);
        }
        match total.checked_add(distribution_details[i].amount) {
            Some(x) => {
                total = x;
            },
            None => {
                return None;
            },
        }
        i = i + 1;
    }
    assert(s.take(s.len() as int) =~= s);
    Some(total)
}

impl Token {
    /// Whether a wallet has a schedule that can be computed at `now`.
    pub fn schedule_computable(&self, wallet: &String, now: u64) -> (r: bool)
        requires
            self.wf(),
        ensures
            r == schedule_ready(self.vesting@, wallet@, now),
    {
        match self.vesting.get(wallet) {
            None => false,
            Some(v) => vesting_computable_at(v, now),
        }
    }

    /// What a wallet's schedule vests at `now`.
    pub fn calculate_vesting_for_now(&self, address: String, now: u64) -> (r: Result<VestingInfo, TokenError>)
        requires
            self.wf(),
            schedule_ready(self.vesting@, address@, now),
        ensures
            match vested_now(address@, schedule_of(self.vesting@, address@), now) {
                Ok(v) => r matches Ok(i) && i@ == v,
                Err(e) => r == Err::<VestingInfo, TokenError>(e),
            },
    {
        let vd = match self.vesting.get(&address) {
            Some(v) => clone_schedule(v),
            None => {
                return Err(TokenError::NoVestingDetails);
            },
        };
        calculate_tokens_for_this_period(address, now, vd)
    }

    /// What the gamified airdrop and private sale categories are due at `now`.
    pub fn populate_transfer_details(&self, now: u64) -> (r: Result<Vec<VestingInfo>, TokenError>)
        requires
            self.wf(),
            schedule_ready(self.vesting@, gamified_airdrop_wallet(), now),
            schedule_ready(self.vesting@, private_sale_wallet(), now),
        ensures
            match transfer_details(self.vesting@, now) {
                Ok(s) => r matches Ok(v) && infos_view(v@) == s,
                Err(e) => r == Err::<Vec<VestingInfo>, TokenError>(e),
            },
    {
        let mut details: Vec<VestingInfo> = Vec::new();
        let ga = match self.calculate_vesting_for_now(gamified_airdrop_address(), now) {
            Ok(i) => i,
            Err(e) => {
                return Err(e);
            },
        };
        let ps = match self.calculate_vesting_for_now(private_sale_address(), now) {
            Ok(i) => i,
            Err(e) => {
                return Err(e);
            },
        };
        let ghost a = ga@;
        let ghost b = ps@;
        details.push(ga);
        details.push(ps);
        assert(infos_view(details@) =~= seq![a, b]);
        Ok(details)
    }

    /// What the private sale investors are due at `now`, leaving out those due nothing.
    pub fn populate_vesting_details(&self, now: u64) -> (r: Result<Vec<VestingInfo>, TokenError>)
        requires
            self.wf(),
            schedule_ready(self.vesting@, nitin_wallet(), now),
            schedule_ready(self.vesting@, ajay_wallet(), now),
            schedule_ready(self.vesting@, sameer_wallet(), now),
        ensures
            match vesting_details_due(self.vesting@, now) {
                Ok(s) => r matches Ok(v) && infos_view(v@) == s,
                Err(e) => r == Err::<Vec<VestingInfo>, TokenError>(e),
            },
    {
        let n = match self.calculate_vesting_for_now(nitin_address(), now) {
            Ok(i) => i,
            Err(e) => {
                return Err(e);
            },
        };
        let a = match self.calculate_vesting_for_now(ajay_address(), now) {
            Ok(i) => i,
            Err(e) => {
                return Err(e);
            },
        };
        let s = match self.calculate_vesting_for_now(sameer_address(), now) {
            Ok(i) => i,
            Err(e) => {
                return Err(e);
            },
        };
        let ghost (x, y, z) = (n@, a@, s@);
        let mut details: Vec<VestingInfo> = Vec::new();
        assert(infos_view(details@) =~= Seq::<(Seq<char>, Option<Seq<char>>, u128)>::empty());
        if n.amount > 0 {
            details.push(n);
        }
        assert(infos_view(details@) =~= keep_positive(Seq::empty(), x));
        let ghost d1 = infos_view(details@);
        if a.amount > 0 {
            details.push(a);
        }
        assert(infos_view(details@) =~= keep_positive(d1, y));
        let ghost d2 = infos_view(details@);
        if s.amount > 0 {
            details.push(s);
        }
        assert(infos_view(details@) =~= keep_positive(d2, z));
        Ok(details)
    }
}

/// What a schedule vests never takes its claimed, available and vested
/// tokens past its total, where they were within it.
pub proof fn law_vesting_stays_within_total(v: VestingView, now: u64)
    requires
        vesting_computable(v, now),
        v.total_claimed_tokens_till_now + v.tokens_available_to_claim <= v.total_vesting_token_count,
    ensures
        0 <= tokens_due(v, now),
        v.total_claimed_tokens_till_now + v.tokens_available_to_claim + tokens_due(v, now) <= v.total_vesting_token_count,
{
}

} // verus!
