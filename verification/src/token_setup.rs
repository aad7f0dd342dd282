//! Setting up the token: its name, symbol and decimals are checked, the
//! initial balances created, the marketing information and logo stored, and
//! the categories' vesting schedules laid down.
use vstd::prelude::*;
use vstd::utf8::*;
use crate::logo::{Logo, LogoInfo, logo_check, verify_logo};
use crate::table::{Table, has_key, lemma_saved_lookup_other, lemma_saved_lookup_same, lemma_saved_sorted, lookup, saved, sorted_keys};
use crate::token::{Cw20Coin, MarketingInfo, MinterData, Token, TokenError, TokenInfo, VestingDetails, VestingView};
use crate::response::Response;
use crate::vesting::{
    advisor_address, advisor_wallet, ajay_address, ajay_wallet, clone_schedule, gamified_airdrop_address,
    gamified_airdrop_wallet, nitin_address, nitin_wallet, private_sale_address, private_sale_wallet, sameer_address,
    sameer_wallet,
};

verus! {

/// A name of 3 to 50 bytes of UTF-8.
pub open spec fn name_ok(name: Seq<char>) -> bool {
    3 <= encode_utf8(name).len() <= 50
}

/// A byte allowed in a ticker symbol: a letter or a hyphen.
pub open spec fn symbol_byte_ok(b: u8) -> bool {
    b == 45 || (65 <= b && b <= 90) || (97 <= b && b <= 122)
}

/// A ticker symbol of 3 to 12 letters or hyphens.
pub open spec fn symbol_ok(symbol: Seq<char>) -> bool {
    let b = encode_utf8(symbol);
    &&& 3 <= b.len() <= 12
    &&& forall|i: int| 0 <= i < b.len() ==> symbol_byte_ok(#[trigger] b[i])
}

/// Checks the name, the symbol and the decimals of a new token, in that order.
pub fn validate(name: &String, symbol: &String, decimals: u8) -> (r: Result<(), TokenError>)
    ensures
        r == if !name_ok(name@) {
            Err::<(), TokenError>(TokenError::InvalidName)
        } else if !symbol_ok(symbol@) {
            Err(TokenError::InvalidSymbol)
        } else if decimals > 18 {
            Err(TokenError::InvalidDecimals)
        } else {
            Ok(())
        },
{
    let name_bytes = name.as_str().as_bytes();
    let n = name_bytes.len();
    assert(n == encode_utf8(name@).len());
    if n < 3 || n > 50 {
        return Err(TokenError::InvalidName);
    }
    let symbol_str = symbol.as_str();
    let bytes = symbol_str.as_bytes();
    assert(bytes@ == encode_utf8(symbol@));
    if bytes.len() < 3 || bytes.len() > 12 {
        return Err(TokenError::InvalidSymbol);
    }
    let mut i: usize = 0;
    while i < bytes.len()
        invariant
            i <= bytes@.len(),
            bytes@ == encode_utf8(symbol@),
            name_ok(name@),
            forall|j: int| 0 <= j < i ==> symbol_byte_ok(#[trigger] bytes@[j]),
        decreases bytes@.len() - i,
    {
        let b = bytes[i];
        if !(b == 45 || (65 <= b && b <= 90) || (97 <= b && b <= 122)) {
            assert(!symbol_byte_ok(bytes@[i as int]));
            return Err(TokenError::InvalidSymbol);
        }
        i = i + 1;
    }
    if decimals > 18 {
        return Err(TokenError::InvalidDecimals);
    }
    Ok(())
}

/// The balances after the initial accounts were saved one after the other.
pub open spec fn accounts_saved(t: Seq<(Seq<char>, u128)>, coins: Seq<Cw20Coin>) -> Seq<(Seq<char>, u128)>
    decreases coins.len(),
{
    if coins.len() == 0 {
        t
    } else {
        saved(accounts_saved(t, coins.drop_last()), coins.last().address@, coins.last().amount)
    }
}

/// The initial amounts, summed.
pub open spec fn coins_total(coins: Seq<Cw20Coin>) -> nat
    decreases coins.len(),
{
    if coins.len() == 0 {
        0
    } else {
        coins_total(coins.drop_last()) + coins.last().amount as nat
    }
}

pub proof fn lemma_coins_total_prefix(coins: Seq<Cw20Coin>, k: int)
    requires
        0 <= k <= coins.len(),
    ensures
        coins_total(coins.take(k)) <= coins_total(coins),
    decreases coins.len(),
{
    if k < coins.len() {
        assert(coins.drop_last().take(k) =~= coins.take(k));
        lemma_coins_total_prefix(coins.drop_last(), k);
    } else {
        assert(coins.take(k) =~= coins);
    }
}

/// A category's schedule at instantiation: vesting every five minutes from now.
pub open spec fn category_schedule(now: u64, initial: u128, per_period: u128, total: u128, cliff: u64) -> VestingView {
    VestingView {
        vesting_start_timestamp: now,
        initial_vesting_count: initial,
        initial_vesting_consumed: 0,
        vesting_periodicity: 300,
        vesting_count_per_period: per_period,
        total_vesting_token_count: total,
        total_claimed_tokens_till_now: 0,
        last_claimed_timestamp: now,
        tokens_available_to_claim: 0,
        last_vesting_timestamp: now,
        cliff_period: cliff,
        category_address: None,
    }
}

/// An investor's schedule: the category's, scaled to the investment.
pub open spec fn sub_schedule(cat: VestingView, category: Seq<char>, investment: u128) -> VestingView {
    VestingView {
        vesting_start_timestamp: cat.vesting_start_timestamp,
        initial_vesting_count: (cat.initial_vesting_count * investment / (cat.total_vesting_token_count as int)) as u128,
        initial_vesting_consumed: 0,
        vesting_periodicity: cat.vesting_periodicity,
        vesting_count_per_period: (cat.vesting_count_per_period * investment / (cat.total_vesting_token_count as int)) as u128,
        total_vesting_token_count: investment,
        total_claimed_tokens_till_now: 0,
        last_claimed_timestamp: cat.vesting_start_timestamp,
        tokens_available_to_claim: 0,
        last_vesting_timestamp: cat.vesting_start_timestamp,
        cliff_period: cat.cliff_period,
        category_address: Some(category),
    }
}

/// The schedules after the investors' were saved, one after the other; an
/// investment of nothing is passed over; the category of an investor
/// without a schedule is the error.
pub open spec fn investors_saved(
    t: Seq<(Seq<char>, VestingView)>,
    investors: Seq<(Seq<char>, Seq<char>, u128)>,
) -> Result<Seq<(Seq<char>, VestingView)>, Seq<char>>
    decreases investors.len(),
{
    if investors.len() == 0 {
        Ok(t)
    } else {
        match investors_saved(t, investors.drop_last()) {
            Err(c) => Err(c),
            Ok(s) => {
                let inv = investors.last();
                if inv.2 == 0 {
                    Ok(s)
                } else if !has_key(s, inv.0) {
                    Err(inv.0)
                } else {
                    Ok(saved(s, inv.1, sub_schedule(lookup(s, inv.0).unwrap(), inv.0, inv.2)))
                }
            },
        }
    }
}

/// No investor's schedule overflows or divides by zero.
pub open spec fn investors_fit(t: Seq<(Seq<char>, VestingView)>, investors: Seq<(Seq<char>, Seq<char>, u128)>) -> bool
    decreases investors.len(),
{
    if investors.len() == 0 {
        true
    } else {
        &&& investors_fit(t, investors.drop_last())
        &&& match investors_saved(t, investors.drop_last()) {
            Err(_) => true,
            Ok(s) => {
                let inv = investors.last();
                let cat = lookup(s, inv.0).unwrap();
                inv.2 > 0 && has_key(s, inv.0) ==> {
                    &&& cat.initial_vesting_count * inv.2 <= u128::MAX
                    &&& cat.vesting_count_per_period * inv.2 <= u128::MAX
                    &&& cat.total_vesting_token_count > 0
                }
            },
        }
    }
}

pub proof fn lemma_investors_err_stays(
    t: Seq<(Seq<char>, VestingView)>,
    investors: Seq<(Seq<char>, Seq<char>, u128)>,
    k: int,
)
    requires
        0 <= k <= investors.len(),
        investors_saved(t, investors.take(k)) is Err,
    ensures
        investors_saved(t, investors) == investors_saved(t, investors.take(k)),
    decreases investors.len(),
{
    if k < investors.len() {
        assert(investors.drop_last().take(k) =~= investors.take(k));
        lemma_investors_err_stays(t, investors.drop_last(), k);
    } else {
        assert(investors.take(k) =~= investors);
    }
}

pub proof fn lemma_investors_fit_prefix(
    t: Seq<(Seq<char>, VestingView)>,
    investors: Seq<(Seq<char>, Seq<char>, u128)>,
    k: int,
)
    requires
        0 <= k <= investors.len(),
        investors_fit(t, investors),
    ensures
        investors_fit(t, investors.take(k)),
    decreases investors.len(),
{
    if k < investors.len() {
        assert(investors.drop_last().take(k) =~= investors.take(k));
        lemma_investors_fit_prefix(t, investors.drop_last(), k);
    } else {
        assert(investors.take(k) =~= investors);
    }
}

/// The investors as (category, investor, investment) texts.
pub open spec fn investors_view(s: Seq<(String, String, u128)>) -> Seq<(Seq<char>, Seq<char>, u128)> {
    s.map_values(|i: (String, String, u128)| (i.0@, i.1@, i.2))
}

/// The schedules of the three categories, laid down at `now` over those of `t`.
pub open spec fn category_schedules(t: Seq<(Seq<char>, VestingView)>, now: u64) -> Seq<(Seq<char>, VestingView)> {
    let t1 = saved(
        t,
        gamified_airdrop_wallet(),
        category_schedule(now, 3_950_000_000_000, 69_490_740_740, 79_000_000_000_000, 0),
    );
    let t2 = saved(t1, advisor_wallet(), category_schedule(now, 0, 40_833_333_333, 14_700_000_000_000, 4));
    saved(t2, private_sale_wallet(), category_schedule(now, 4_200_000_000_000, 210_000_000_000, 42_000_000_000_000, 0))
}

/// The private sale investors with their investments.
pub open spec fn private_sale_investors() -> Seq<(Seq<char>, Seq<char>, u128)> {
    seq![
        (private_sale_wallet(), nitin_wallet(), 16_800_000_000_000u128),
        (private_sale_wallet(), ajay_wallet(), 12_600_000_000_000u128),
        (private_sale_wallet(), sameer_wallet(), 12_600_000_000_000u128),
    ]
}

/// The private sale schedule laid down at `now`.
pub open spec fn private_sale_schedule(now: u64) -> VestingView {
    category_schedule(now, 4_200_000_000_000, 210_000_000_000, 42_000_000_000_000, 0)
}

/// The schedules once the categories' and the private sale investors' were laid down.
pub open spec fn schedules_at_start(t: Seq<(Seq<char>, VestingView)>, now: u64) -> Seq<(Seq<char>, VestingView)> {
    let t3 = category_schedules(t, now);
    let ps = private_sale_schedule(now);
    let t4 = saved(t3, nitin_wallet(), sub_schedule(ps, private_sale_wallet(), 16_800_000_000_000));
    let t5 = saved(t4, ajay_wallet(), sub_schedule(ps, private_sale_wallet(), 12_600_000_000_000));
    saved(t5, sameer_wallet(), sub_schedule(ps, private_sale_wallet(), 12_600_000_000_000))
}

/// One more investor whose category has a schedule: its schedule is saved.
pub proof fn lemma_investor_step(
    t: Seq<(Seq<char>, VestingView)>,
    investors: Seq<(Seq<char>, Seq<char>, u128)>,
    s: Seq<(Seq<char>, VestingView)>,
    cat: VestingView,
)
    requires
        investors.len() > 0,
        investors_saved(t, investors.drop_last()) == Ok::<Seq<(Seq<char>, VestingView)>, Seq<char>>(s),
        investors_fit(t, investors.drop_last()),
        investors.last().2 > 0,
        lookup(s, investors.last().0) == Some(cat),
        cat.initial_vesting_count * investors.last().2 <= u128::MAX,
        cat.vesting_count_per_period * investors.last().2 <= u128::MAX,
        cat.total_vesting_token_count > 0,
    ensures
        investors_fit(t, investors),
        investors_saved(t, investors) == Ok::<Seq<(Seq<char>, VestingView)>, Seq<char>>(
            saved(s, investors.last().1, sub_schedule(cat, investors.last().0, investors.last().2)),
        ),
{
}

/// The private sale investors' schedules can be laid down over the
/// categories': each investor's category is there, and nothing overflows.
/// The private sale wallet is neither of the first two investors' wallets.
pub proof fn lemma_private_sale_wallets_distinct()
    ensures
        private_sale_wallet() != nitin_wallet(),
        private_sale_wallet() != ajay_wallet(),
{
    reveal_strlit("terra1e7maadq8sdk6aqaz2vwzxrsfr3tu8svz2sw850");
    reveal_strlit("terra1jq6ffpwfj08rx9wxu02ussv6pequm0tkzfjq22");
    reveal_strlit("terra1mk9nav0hv5r8f7dwymjxml8yft78qkt6fuqae7");
    assert(private_sale_wallet()[6] != nitin_wallet()[6]);
    assert(private_sale_wallet()[6] != ajay_wallet()[6]);
}

#[verifier::spinoff_prover]
#[verifier::rlimit(60)]
pub proof fn lemma_private_sale_setup(t: Seq<(Seq<char>, VestingView)>, now: u64)
    requires
        sorted_keys(t),
    ensures
        investors_fit(category_schedules(t, now), private_sale_investors()),
        investors_saved(category_schedules(t, now), private_sale_investors()) == Ok::<
            Seq<(Seq<char>, VestingView)>,
            Seq<char>,
        >(schedules_at_start(t, now)),
{
    let psw = private_sale_wallet();
    lemma_private_sale_wallets_distinct();
    let ga = category_schedule(now, 3_950_000_000_000, 69_490_740_740, 79_000_000_000_000, 0);
    let adv = category_schedule(now, 0, 40_833_333_333, 14_700_000_000_000, 4);
    let t1 = saved(t, gamified_airdrop_wallet(), ga);
    let t2 = saved(t1, advisor_wallet(), adv);
    lemma_saved_sorted(t, gamified_airdrop_wallet(), ga);
    lemma_saved_sorted(t1, advisor_wallet(), adv);
    let ps = private_sale_schedule(now);
    let t3 = category_schedules(t, now);
    assert(t3 == saved(t2, psw, ps));
    lemma_saved_sorted(t2, psw, ps);
    lemma_saved_lookup_same(t2, psw, ps);
    let i = private_sale_investors();
    let s1 = sub_schedule(ps, psw, 16_800_000_000_000);
    let t4 = saved(t3, nitin_wallet(), s1);
    lemma_saved_sorted(t3, nitin_wallet(), s1);
    lemma_saved_lookup_other(t3, nitin_wallet(), s1, psw);
    let s2 = sub_schedule(ps, psw, 12_600_000_000_000);
    let t5 = saved(t4, ajay_wallet(), s2);
    lemma_saved_lookup_other(t4, ajay_wallet(), s2, psw);
    let i1 = i.drop_last().drop_last();
    let i2 = i.drop_last();
    assert(i1.drop_last() =~= Seq::<(Seq<char>, Seq<char>, u128)>::empty());
    assert(i1.last() == i[0]);
    assert(i2.drop_last() == i1);
    assert(i2.last() == i[1]);
    assert(i.last() == i[2]);
    lemma_investor_step(t3, i1, t3, ps);
    lemma_investor_step(t3, i2, t4, ps);
    lemma_investor_step(t3, i, t5, ps);
}

fn schedule(
    now: u64,
    initial: u128,
    per_period: u128,
    total: u128,
    cliff: u64,
) -> (r: VestingDetails)
    ensures
        r@ == category_schedule(now, initial, per_period, total, cliff),
{
    VestingDetails {
        vesting_start_timestamp: now,
        initial_vesting_count: initial,
        initial_vesting_consumed: 0,
        vesting_periodicity: 300,
        vesting_count_per_period: per_period,
        total_vesting_token_count: total,
        total_claimed_tokens_till_now: 0,
        last_claimed_timestamp: now,
        tokens_available_to_claim: 0,
        last_vesting_timestamp: now,
        cliff_period: cliff,
        category_address: None,
    }
}

impl Token {
    /// Saves the initial balances one after the other; returns their sum.
    pub fn create_accounts(&mut self, accounts: &Vec<Cw20Coin>) -> (r: u128)
        requires
            old(self).wf(),
            coins_total(accounts@) <= u128::MAX,
        ensures
            final(self).wf(),
            r == coins_total(accounts@),
            final(self).balances@ == accounts_saved(old(self).balances@, accounts@),
            final(self).token_info == old(self).token_info,
            final(self).same_books(old(self)),
    {
        let mut total: u128 = 0;
        let mut i: usize = 0;
        while i < accounts.len()
            invariant
                i <= accounts@.len(),
                self.wf(),
                coins_total(accounts@) <= u128::MAX,
                total == coins_total(accounts@.take(i as int)),
                self.balances@ == accounts_saved(old(self).balances@, accounts@.take(i as int)),
                self.token_info == old(self).token_info,
                self.same_books(old(self)),
            decreases accounts@.len() - i,
        {
            proof {
                assert(accounts@.take(i + 1).drop_last() =~= accounts@.take(i as int));
                lemma_coins_total_prefix(accounts@, i + 1);
            }
            self.balances.save(accounts[i].address.clone(), accounts[i].amount);
            total = total + accounts[i].amount;
            i = i + 1;
        }
        assert(accounts@.take(accounts@.len() as int) =~= accounts@);
        total
    }

    /// Lays down the investors' schedules, each scaled from its category's.
    pub fn instantiate_sub_category_vesting_schedules(&mut self, investors: &Vec<(String, String, u128)>) -> (r: Result<
        (),
        TokenError,
    >)
        requires
            old(self).wf(),
            investors_fit(old(self).vesting@, investors_view(investors@)),
        ensures
            final(self).wf(),
            final(self).balances == old(self).balances,
            final(self).token_info == old(self).token_info,
            final(self).allowances == old(self).allowances,
            final(self).marketing == old(self).marketing,
            final(self).logo == old(self).logo,
            match investors_saved(old(self).vesting@, investors_view(investors@)) {
                Ok(t) => r is Ok && final(self).vesting@ == t,
                Err(c) => r matches Err(TokenError::NoCategoryVesting { category }) && category@ == c,
            },
    {
        let ghost inv = investors_view(investors@);
        let ghost t0 = self.vesting@;
        let mut i: usize = 0;
        while i < investors.len()
            invariant
                i <= inv.len(),
                inv == investors_view(investors@),
                self.wf(),
                investors_fit(t0, inv),
                investors_saved(t0, inv.take(i as int)) == Ok::<Seq<(Seq<char>, VestingView)>, Seq<char>>(self.vesting@),
                self.balances == old(self).balances,
                self.token_info == old(self).token_info,
                self.allowances == old(self).allowances,
                self.marketing == old(self).marketing,
                self.logo == old(self).logo,
                t0 == old(self).vesting@,
            decreases inv.len() - i,
        {
            proof {
                assert(inv.take(i + 1).drop_last() =~= inv.take(i as int));
                lemma_investors_fit_prefix(t0, inv, i + 1);
            }
            let investment = investors[i].2;
            if investment > 0 {
                let cat = match self.vesting.get(&investors[i].0) {
                    Some(c) => clone_schedule(c),
                    None => {
                        proof {
                            lemma_investors_err_stays(t0, inv, i + 1);
                        }
                        return Err(TokenError::NoCategoryVesting { category: investors[i].0.clone() });
                    },
                };
                let v = VestingDetails {
                    vesting_start_timestamp: cat.vesting_start_timestamp,
                    initial_vesting_count: cat.initial_vesting_count * investment / cat.total_vesting_token_count,
                    initial_vesting_consumed: 0,
                    vesting_periodicity: cat.vesting_periodicity,
                    vesting_count_per_period: cat.vesting_count_per_period * investment / cat.total_vesting_token_count,
                    total_vesting_token_count: investment,
                    total_claimed_tokens_till_now: 0,
                    last_claimed_timestamp: cat.vesting_start_timestamp,
                    tokens_available_to_claim: 0,
                    last_vesting_timestamp: cat.vesting_start_timestamp,
                    cliff_period: cat.cliff_period,
                    category_address: Some(investors[i].0.clone()),
                };
                self.vesting.save(investors[i].1.clone(), v);
            }
            i = i + 1;
        }
        assert(inv.take(inv.len() as int) =~= inv);
        Ok(())
    }
}

impl Token {
    /// Lays down the schedules of the gamified airdrop, advisors and private
    /// sale categories at `now`, then those of the private sale investors.
    pub fn instantiate_category_vesting_schedules(&mut self, now: u64) -> (r: Result<(), TokenError>)
        requires
            old(self).wf(),
        ensures
            final(self).wf(),
            r is Ok,
            final(self).vesting@ == schedules_at_start(old(self).vesting@, now),
            final(self).balances == old(self).balances,
            final(self).token_info == old(self).token_info,
            final(self).allowances == old(self).allowances,
            final(self).marketing == old(self).marketing,
            final(self).logo == old(self).logo,
    {
        proof {
            lemma_private_sale_setup(self.vesting@, now);
        }
        self.vesting.save(
            gamified_airdrop_address(),
            schedule(now, 3_950_000_000_000, 69_490_740_740, 79_000_000_000_000, 0),
        );
        self.vesting.save(advisor_address(), schedule(now, 0, 40_833_333_333, 14_700_000_000_000, 4));
        self.vesting.save(private_sale_address(), schedule(now, 4_200_000_000_000, 210_000_000_000, 42_000_000_000_000, 0));
        let mut investors: Vec<(String, String, u128)> = Vec::new();
        investors.push((private_sale_address(), nitin_address(), 16_800_000_000_000));
        investors.push((private_sale_address(), ajay_address(), 12_600_000_000_000));
        investors.push((private_sale_address(), sameer_address(), 12_600_000_000_000));
        assert(investors_view(investors@) =~= private_sale_investors());
        self.instantiate_sub_category_vesting_schedules(&investors)
    }
}

/// The marketing information given at instantiation.
pub struct InstantiateMarketingInfo {
    pub project: Option<String>,
    pub description: Option<String>,
    pub marketing: Option<String>,
    pub logo: Option<Logo>,
}

/// What the marketing information records of a logo: its link, or that it is embedded.
pub open spec fn logo_info_of(logo: Logo) -> LogoInfo {
    match logo {
        Logo::Url(u) => LogoInfo::Url(u),
        Logo::Embedded(_) => LogoInfo::Embedded,
    }
}

pub fn logo_info(logo: &Logo) -> (r: LogoInfo)
    ensures
        r == logo_info_of(*logo),
{
    match logo {
        Logo::Url(u) => LogoInfo::Url(u.clone()),
        Logo::Embedded(_) => LogoInfo::Embedded,
    }
}

/// The cap a minter was given, if any.
pub open spec fn cap_of(mint: Option<MinterData>) -> Option<u128> {
    match mint {
        Some(m) => m.cap,
        None => None,
    }
}

/// The first check an instantiation fails.
pub open spec fn instantiate_error(
    name: Seq<char>,
    symbol: Seq<char>,
    decimals: u8,
    coins: Seq<Cw20Coin>,
    mint: Option<MinterData>,
    marketing: Option<InstantiateMarketingInfo>,
) -> Option<TokenError> {
    if !name_ok(name) {
        Some(TokenError::InvalidName)
    } else if !symbol_ok(symbol) {
        Some(TokenError::InvalidSymbol)
    } else if decimals > 18 {
        Some(TokenError::InvalidDecimals)
    } else if cap_of(mint) matches Some(c) && coins_total(coins) > c {
        Some(TokenError::InitialSupplyOverCap)
    } else if marketing matches Some(m) && m.logo matches Some(l) && logo_check(l) is Err {
        Some(TokenError::Logo(logo_check(marketing->Some_0.logo->Some_0)->Err_0))
    } else {
        None
    }
}

/// The marketing information stored at instantiation.
pub open spec fn marketing_at_start(marketing: Option<InstantiateMarketingInfo>) -> Option<MarketingInfo> {
    match marketing {
        None => None,
        Some(m) => Some(
            MarketingInfo {
                project: m.project,
                description: m.description,
                marketing: m.marketing,
                logo: match m.logo {
                    Some(l) => Some(logo_info_of(l)),
                    None => None,
                },
            },
        ),
    }
}

impl Token {
    /// Sets the token up: checks its name, symbol and decimals, creates the
    /// initial balances (within the minter's cap), stores the marketing
    /// information and logo, and lays down the vesting schedules.
    pub fn instantiate(
        name: String,
        symbol: String,
        decimals: u8,
        initial_balances: Vec<Cw20Coin>,
        mint: Option<MinterData>,
        marketing: Option<InstantiateMarketingInfo>,
        now: u64,
    ) -> (r: Result<Token, TokenError>)
        requires
            name_ok(name@) && symbol_ok(symbol@) && decimals <= 18 ==> coins_total(initial_balances@) <= u128::MAX,
        ensures
            instantiate_error(name@, symbol@, decimals, initial_balances@, mint, marketing) matches Some(e) ==> r == Err::<
                Token,
                TokenError,
            >(e),
            instantiate_error(name@, symbol@, decimals, initial_balances@, mint, marketing) is None ==> ({
                &&& r matches Ok(t) && t.wf()
                &&& r->Ok_0.token_info == TokenInfo {
                    name,
                    symbol,
                    decimals,
                    total_supply: coins_total(initial_balances@) as u128,
                    mint,
                }
                &&& r->Ok_0.balances@ == accounts_saved(Seq::empty(), initial_balances@)
                &&& r->Ok_0.marketing == marketing_at_start(marketing)
                &&& r->Ok_0.logo == match marketing {
                    Some(m) => m.logo,
                    None => None,
                }
                &&& r->Ok_0.vesting@ == schedules_at_start(Seq::empty(), now)
                &&& r->Ok_0.allowances@.len() == 0
            }),
    {
        match validate(&name, &symbol, decimals) {
            Err(e) => {
                return Err(e);
            },
            Ok(()) => {},
        }
        let mut token = Token {
            token_info: TokenInfo { name, symbol, decimals, total_supply: 0, mint: None },
            balances: Table::new(),
            marketing: None,
            logo: None,
            vesting: Table::new(),
            allowances: Vec::new(),
        };
        let total = token.create_accounts(&initial_balances);
        match &mint {
            Some(m) => match m.cap {
                Some(c) => {
                    if total > c {
                        return Err(TokenError::InitialSupplyOverCap);
                    }
                },
                None => {},
            },
            None => {},
        }
        token.token_info.total_supply = total;
        token.token_info.mint = mint;
        match marketing {
            Some(m) => {
                let logo_info = match &m.logo {
                    Some(l) => {
                        match verify_logo(l) {
                            Err(e) => {
                                return Err(TokenError::Logo(e));
                            },
                            Ok(()) => {},
                        }
                        Some(logo_info(l))
                    },
                    None => None,
                };
                token.logo = m.logo;
                token.marketing = Some(
                    MarketingInfo { project: m.project, description: m.description, marketing: m.marketing, logo: logo_info },
                );
            },
            None => {},
        }
        match token.instantiate_category_vesting_schedules(now) {
            Err(e) => {
                return Err(e);
            },
            Ok(()) => {},
        }
        Ok(token)
    }
}

} // verus!
