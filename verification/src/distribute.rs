//! The distributor: a token ledger that hands fixed amounts to the
//! marketing and gamified airdrop wallets out of the mint wallet's balance
//! on the token contract.
use vstd::prelude::*;
use vstd::string::StringExecFns;
use crate::logo::{EmbeddedLogo, Logo};
use crate::response::{Msg, Response, decimal};
use crate::table::{Table, lookup, saved};
use crate::token::{
    Cw20Coin, MarketingInfo, TokenError, TokenInfo, action_attrs, balance_in, balance_of, move_between, move_fits,
    moved,
};
use crate::token_marketing::{DownloadLogoResponse, MinterResponse, TokenInfoResponse, clone_marketing};
use crate::token_setup::validate;

verus! {

/// A vesting schedule of the distributor.
#[derive(Debug, PartialEq, Eq)]
pub struct DistributionVesting {
    pub start_timestamp: u64,
    pub vesting_periodicity: u64,
    pub periodic_vesting_token_count: u128,
    pub total_vesting_token_count: u128,
    pub total_purchased_tokens_till_now: u128,
    pub cliff_period: u64,
}

impl View for DistributionVesting {
    type V = DistributionVesting;

    open spec fn view(&self) -> DistributionVesting {
        *self
    }
}

/// The gamified airdrop wallet of the distributor.
pub open spec fn airdrop_wallet() -> Seq<char> {
    "terra1hg3qhvhne3fmva7ty4fxrkwmk323vf9f6ueglx"@
}

/// The marketing wallet of the distributor.
pub open spec fn marketing_wallet() -> Seq<char> {
    "terra19snweulv8qgaw4wcs4sw09yms4929xccxvru75"@
}

/// The schedule laid down for the gamified airdrop wallet at `now`.
pub open spec fn airdrop_schedule(now: u64) -> DistributionVesting {
    DistributionVesting {
        start_timestamp: now,
        vesting_periodicity: 300,
        periodic_vesting_token_count: 1234,
        total_vesting_token_count: 12345678910,
        total_purchased_tokens_till_now: 1050000000000,
        cliff_period: 0,
    }
}

/// The distributor's storage. Its token information is never set up.
pub struct Distributor {
    pub balances: Table<u128>,
    pub vesting: Table<DistributionVesting>,
    pub token_info: Option<TokenInfo>,
    pub marketing: Option<MarketingInfo>,
    pub logo: Option<Logo>,
}

/// What each round of distribution hands out: 1000 to the marketing wallet,
/// then 1000 to the gamified airdrop wallet.
pub open spec fn distribution_amounts() -> Seq<(Seq<char>, u128)> {
    seq![(marketing_wallet(), 1000u128), (airdrop_wallet(), 1000u128)]
}

/// The attributes of a distribution by `sender` over `n` recipients.
pub open spec fn distribution_attrs(sender: Seq<char>, n: nat) -> Seq<(Seq<char>, Seq<char>)>
    decreases n,
{
    if n == 0 {
        Seq::empty()
    } else {
        distribution_attrs(sender, (n - 1) as nat) + seq![
            ("action"@, "transfer vested tokens"@),
            ("address"@, sender),
            ("kuchha hua"@, "Pata nahi"@),
        ]
    }
}

/// The recipients and amounts of a distribution.
pub fn populate_distribution_details() -> (r: Vec<Cw20Coin>)
    ensures
        r@.len() == 2,
        r@.map_values(|c: Cw20Coin| (c.address@, c.amount)) == distribution_amounts(),
        r@[0].amount == 1000 && r@[1].amount == 1000,
{
    let mut r: Vec<Cw20Coin> = Vec::new();
    r.push(Cw20Coin { address: String::from_str("terra19snweulv8qgaw4wcs4sw09yms4929xccxvru75"), amount: 1000 });
    r.push(Cw20Coin { address: String::from_str("terra1hg3qhvhne3fmva7ty4fxrkwmk323vf9f6ueglx"), amount: 1000 });
    assert(r@.map_values(|c: Cw20Coin| (c.address@, c.amount)) =~= distribution_amounts());
    r
}

/// The amounts of a list of coins, summed.
pub open spec fn coins_sum(s: Seq<Cw20Coin>) -> nat
    decreases s.len(),
{
    if s.len() == 0 {
        0
    } else {
        coins_sum(s.drop_last()) + s.last().amount as nat
    }
}

pub proof fn lemma_coins_sum_prefix(s: Seq<Cw20Coin>, k: int)
    requires
        0 <= k <= s.len(),
    ensures
        coins_sum(s.take(k)) <= coins_sum(s),
    decreases s.len(),
{
    if k < s.len() {
        assert(s.drop_last().take(k) =~= s.take(k));
        lemma_coins_sum_prefix(s.drop_last(), k);
    } else {
        assert(s.take(k) =~= s);
    }
}

/// Sums the amounts of a list of coins.
pub fn calculate_total_distribution(distribution_details: &Vec<Cw20Coin>) -> (r: u128)
    requires
        coins_sum(distribution_details@) <= u128::MAX,
    ensures
        r == coins_sum(distribution_details@),
{
    let mut total: u128 = 0;
    let mut i: usize = 0;
    while i < distribution_details.len()
        invariant
            i <= distribution_details@.len(),
            coins_sum(distribution_details@) <= u128::MAX,
            total == coins_sum(distribution_details@.take(i as int)),
        decreases distribution_details@.len() - i,
    {
        proof {
            assert(distribution_details@.take(i + 1).drop_last() =~= distribution_details@.take(i as int));
            lemma_coins_sum_prefix(distribution_details@, i + 1);
        }
        total = total + distribution_details[i].amount;
        i = i + 1;
    }
    assert(distribution_details@.take(distribution_details@.len() as int) =~= distribution_details@);
    total
}

impl Distributor {
    pub open spec fn wf(&self) -> bool {
        &&& self.balances.wf()
        &&& self.vesting.wf()
    }

    /// Lays down the gamified airdrop wallet's schedule at `now`; returns the
    /// supply it created, which is none.
    pub fn instantiate_vesting_details(&mut self, now: u64) -> (r: u128)
        requires
            old(self).wf(),
        ensures
            final(self).wf(),
            r == 0,
            final(self).vesting@ == saved(old(self).vesting@, airdrop_wallet(), airdrop_schedule(now)),
            final(self).balances == old(self).balances,
            final(self).token_info == old(self).token_info,
            final(self).marketing == old(self).marketing,
            final(self).logo == old(self).logo,
    {
        self.vesting.save(
            String::from_str("terra1hg3qhvhne3fmva7ty4fxrkwmk323vf9f6ueglx"),
            DistributionVesting {
                start_timestamp: now,
                vesting_periodicity: 300,
                periodic_vesting_token_count: 1234,
                total_vesting_token_count: 12345678910,
                total_purchased_tokens_till_now: 1050000000000,
                cliff_period: 0,
            },
        );
        0
    }

    /// Sets the distributor up: the token's name, symbol and decimals are
    /// checked and the gamified airdrop wallet's schedule laid down.
    pub fn instantiate(name: &String, symbol: &String, decimals: u8, now: u64) -> (r: Result<Distributor, TokenError>)
        ensures
            match validate_outcome(name@, symbol@, decimals) {
                Some(e) => r == Err::<Distributor, TokenError>(e),
                None => r matches Ok(d) && d.wf() && d.vesting@ == saved(
                    Seq::empty(),
                    airdrop_wallet(),
                    airdrop_schedule(now),
                ) && d.balances@.len() == 0 && d.token_info.is_none() && d.marketing.is_none() && d.logo.is_none(),
            },
    {
        match validate(name, symbol, decimals) {
            Err(e) => {
                return Err(e);
            },
            Ok(()) => {},
        }
        let mut d = Distributor {
            balances: Table::new(),
            vesting: Table::new(),
            token_info: None,
            marketing: None,
            logo: None,
        };
        d.instantiate_vesting_details(now);
        Ok(d)
    }

    /// Hands out a round of distribution by the mint wallet, whose balance
    /// on the token contract is `balance` (`None`: the balance query failed).
    /// The response records each recipient; the transfers themselves are not sent.
    pub fn distribute_to_accounts(&self, sender: &String, balance: Option<u128>) -> (r: Result<Response, TokenError>)
        ensures
            match balance {
                None => r == Err::<Response, TokenError>(TokenError::BalanceQueryFailed),
                Some(b) => if b < 2000 {
                    r == Err::<Response, TokenError>(TokenError::CannotSub { balance: b, amount: 2000 })
                } else {
                    r matches Ok(resp) && resp.messages@.len() == 0 && resp.data.is_none() && resp.attrs()
                        == distribution_attrs(sender@, 2)
                },
            },
    {
        let details = populate_distribution_details();
        proof {
            let d1 = details@.drop_last();
            assert(d1.drop_last() =~= Seq::<Cw20Coin>::empty());
            assert(d1.last() == details@[0]);
            assert(coins_sum(d1.drop_last()) == 0);
            assert(coins_sum(d1) == 1000);
            assert(details@.last() == details@[1]);
            assert(coins_sum(details@) == 2000);
        }
        let total = calculate_total_distribution(&details);
        let have = match balance {
            None => {
                return Err(TokenError::BalanceQueryFailed);
            },
            Some(b) => b,
        };
        if have < total {
            return Err(TokenError::CannotSub { balance: have, amount: total });
        }
        let mut resp = Response::empty();
        let mut i: usize = 0;
        while i < details.len()
            invariant
                i <= details@.len(),
                details@.len() == 2,
                resp.messages@.len() == 0,
                resp.data.is_none(),
                resp.attrs() == distribution_attrs(sender@, i as nat),
            decreases details@.len() - i,
        {
            let ghost a0 = resp.attrs();
            resp.add_attr("action", String::from_str("transfer vested tokens"));
            resp.add_attr("address", sender.clone());
            resp.add_attr("kuchha hua", String::from_str("Pata nahi"));
            assert(resp.attrs() =~= a0 + seq![
                ("action"@, "transfer vested tokens"@),
                ("address"@, sender@),
                ("kuchha hua"@, "Pata nahi"@),
            ]);
            i = i + 1;
        }
        Ok(resp)
    }

    /// Moves `amount` of the sender's tokens to `recipient`.
    pub fn execute_transfer(&mut self, sender: &String, recipient: String, amount: u128) -> (r: Result<Response, TokenError>)
        requires
            old(self).wf(),
            amount > 0 && balance_of(old(self).balances@, sender@) >= amount ==> move_fits(
                old(self).balances@,
                sender@,
                recipient@,
                amount,
            ),
        ensures
            final(self).wf(),
            amount == 0 ==> r == Err::<Response, TokenError>(TokenError::InvalidZeroAmount) && *final(self) == *old(self),
            amount > 0 && balance_of(old(self).balances@, sender@) < amount ==> r == Err::<Response, TokenError>(
                TokenError::CannotSub { balance: balance_of(old(self).balances@, sender@), amount },
            ) && *final(self) == *old(self),
            amount > 0 && balance_of(old(self).balances@, sender@) >= amount ==> ({
                &&& r matches Ok(resp) && resp.messages@.len() == 0 && resp.data.is_none() && resp.attrs()
                    == action_attrs("transfer"@, seq![("from"@, sender@), ("to"@, recipient@)], amount)
                &&& final(self).balances@ == moved(old(self).balances@, sender@, recipient@, amount)
                &&& final(self).vesting == old(self).vesting
                &&& final(self).token_info == old(self).token_info
                &&& final(self).marketing == old(self).marketing
                &&& final(self).logo == old(self).logo
            }),
    {
        if amount == 0 {
            return Err(TokenError::InvalidZeroAmount);
        }
        match move_between(&mut self.balances, sender, &recipient, amount) {
            Err(e) => {
                return Err(e);
            },
            Ok(()) => {},
        }
        let mut resp = Response::empty();
        resp.add_attr("action", String::from_str("transfer"));
        resp.add_attr("from", sender.clone());
        resp.add_attr("to", recipient);
        resp.add_attr("amount", decimal(amount));
        assert(resp.attrs() =~= action_attrs("transfer"@, seq![("from"@, sender@), ("to"@, recipient@)], amount));
        Ok(resp)
    }

    /// Moves `amount` of the sender's tokens to `contract` and tells the
    /// contract about it, with `msg`.
    pub fn execute_send(&mut self, sender: &String, contract: String, amount: u128, msg: Vec<u8>) -> (r: Result<
        Response,
        TokenError,
    >)
        requires
            old(self).wf(),
            amount > 0 && balance_of(old(self).balances@, sender@) >= amount ==> move_fits(
                old(self).balances@,
                sender@,
                contract@,
                amount,
            ),
        ensures
            final(self).wf(),
            amount == 0 ==> r == Err::<Response, TokenError>(TokenError::InvalidZeroAmount) && *final(self) == *old(self),
            amount > 0 && balance_of(old(self).balances@, sender@) < amount ==> r == Err::<Response, TokenError>(
                TokenError::CannotSub { balance: balance_of(old(self).balances@, sender@), amount },
            ) && *final(self) == *old(self),
            amount > 0 && balance_of(old(self).balances@, sender@) >= amount ==> ({
                &&& r matches Ok(resp) && resp.data.is_none() && resp.attrs() == action_attrs(
                    "send"@,
                    seq![("from"@, sender@), ("to"@, contract@)],
                    amount,
                ) && resp.messages@ == seq![Msg::Receive { contract, sender: *sender, amount, msg }]
                &&& final(self).balances@ == moved(old(self).balances@, sender@, contract@, amount)
                &&& final(self).vesting == old(self).vesting
                &&& final(self).token_info == old(self).token_info
                &&& final(self).marketing == old(self).marketing
                &&& final(self).logo == old(self).logo
            }),
    {
        if amount == 0 {
            return Err(TokenError::InvalidZeroAmount);
        }
        match move_between(&mut self.balances, sender, &contract, amount) {
            Err(e) => {
                return Err(e);
            },
            Ok(()) => {},
        }
        let mut resp = Response::empty();
        resp.add_attr("action", String::from_str("send"));
        resp.add_attr("from", sender.clone());
        resp.add_attr("to", contract.clone());
        resp.add_attr("amount", decimal(amount));
        resp.add_msg(Msg::Receive { contract, sender: sender.clone(), amount, msg });
        assert(resp.attrs() =~= action_attrs("send"@, seq![("from"@, sender@), ("to"@, contract@)], amount));
        assert(resp.messages@ =~= seq![Msg::Receive { contract, sender: *sender, amount, msg }]);
        Ok(resp)
    }

    /// The balance of an address, 0 if it has none.
    pub fn query_balance(&self, address: &String) -> (r: u128)
        requires
            self.wf(),
        ensures
            r == balance_of(self.balances@, address@),
    {
        balance_in(&self.balances, address)
    }

    /// The token's name, symbol, decimals and total supply, where they were set up.
    pub fn query_token_info(&self) -> (r: Result<TokenInfoResponse, TokenError>)
        ensures
            match self.token_info {
                Some(t) => r == Ok::<TokenInfoResponse, TokenError>(
                    TokenInfoResponse { name: t.name, symbol: t.symbol, decimals: t.decimals, total_supply: t.total_supply },
                ),
                None => r == Err::<TokenInfoResponse, TokenError>(TokenError::TokenInfoMissing),
            },
    {
        match &self.token_info {
            Some(t) => Ok(
                TokenInfoResponse {
                    name: t.name.clone(),
                    symbol: t.symbol.clone(),
                    decimals: t.decimals,
                    total_supply: t.total_supply,
                },
            ),
            None => Err(TokenError::TokenInfoMissing),
        }
    }

    /// The minter and its cap, where the token information was set up.
    pub fn query_minter(&self) -> (r: Result<Option<MinterResponse>, TokenError>)
        ensures
            match self.token_info {
                Some(t) => r == Ok::<Option<MinterResponse>, TokenError>(
                    match t.mint {
                        Some(m) => Some(MinterResponse { minter: m.minter, cap: m.cap }),
                        None => None,
                    },
                ),
                None => r == Err::<Option<MinterResponse>, TokenError>(TokenError::TokenInfoMissing),
            },
    {
        match &self.token_info {
            Some(t) => match &t.mint {
                Some(m) => Ok(Some(MinterResponse { minter: m.minter.clone(), cap: m.cap })),
                None => Ok(None),
            },
            None => Err(TokenError::TokenInfoMissing),
        }
    }

    /// The marketing information; all fields empty where there is none.
    pub fn query_marketing_info(&self) -> (r: MarketingInfo)
        ensures
            r == match self.marketing {
                Some(m) => m,
                None => MarketingInfo { project: None, description: None, marketing: None, logo: None },
            },
    {
        match &self.marketing {
            Some(m) => clone_marketing(m),
            None => MarketingInfo { project: None, description: None, marketing: None, logo: None },
        }
    }

    /// The embedded logo with its media type; none for a link or no logo.
    pub fn query_download_logo(&self) -> (r: Result<DownloadLogoResponse, TokenError>)
        ensures
            match self.logo {
                Some(Logo::Embedded(EmbeddedLogo::Svg(d))) => r matches Ok(x) && x.mime_type@ == "image/svg+xml"@
                    && x.data@ == d@,
                Some(Logo::Embedded(EmbeddedLogo::Png(d))) => r matches Ok(x) && x.mime_type@ == "image/png"@ && x.data@
                    == d@,
                _ => r == Err::<DownloadLogoResponse, TokenError>(TokenError::LogoNotFound),
            },
    {
        match &self.logo {
            Some(Logo::Embedded(EmbeddedLogo::Svg(d))) => Ok(
                DownloadLogoResponse { mime_type: String::from_str("image/svg+xml"), data: copy_logo_bytes(d) },
            ),
            Some(Logo::Embedded(EmbeddedLogo::Png(d))) => Ok(
                DownloadLogoResponse { mime_type: String::from_str("image/png"), data: copy_logo_bytes(d) },
            ),
            _ => Err(TokenError::LogoNotFound),
        }
    }
}

fn copy_logo_bytes(d: &Vec<u8>) -> (r: Vec<u8>)
    ensures
        r@ == d@,
{
    let mut r: Vec<u8> = Vec::new();
    let mut i: usize = 0;
    while i < d.len()
        invariant
            i <= d@.len(),
            r@ == d@.take(i as int),
        decreases d@.len() - i,
    {
        r.push(d[i]);
        assert(r@ =~= d@.take(i + 1));
        i = i + 1;
    }
    assert(d@.take(d@.len() as int) =~= d@);
    r
}

/// The error the checks of a new token's name, symbol and decimals give, if any.
pub open spec fn validate_outcome(name: Seq<char>, symbol: Seq<char>, decimals: u8) -> Option<TokenError> {
    if !crate::token_setup::name_ok(name) {
        Some(TokenError::InvalidName)
    } else if !crate::token_setup::symbol_ok(symbol) {
        Some(TokenError::InvalidSymbol)
    } else if decimals > 18 {
        Some(TokenError::InvalidDecimals)
    } else {
        None
    }
}

} // verus!
