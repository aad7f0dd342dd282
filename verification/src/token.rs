//! The fungible token: balances, minting under a cap, burning, transfers and
//! sends to contracts, marketing information and its logo.
use vstd::prelude::*;
use vstd::string::StringExecFns;
use crate::logo::{Logo, LogoError, LogoInfo, EmbeddedLogo, logo_check, verify_logo};
use crate::response::{Msg, Response, decimal, decimal_text};
use crate::table::{Table, lookup, saved};

verus! {

#[derive(Debug, PartialEq, Eq)]
pub struct MinterData {
    pub minter: String,
    /// The most the total supply may reach, if limited.
    pub cap: Option<u128>,
}

#[derive(Debug, PartialEq, Eq)]
pub struct TokenInfo {
    pub name: String,
    pub symbol: String,
    pub decimals: u8,
    pub total_supply: u128,
    pub mint: Option<MinterData>,
}

/// The token's marketing information.
#[derive(Debug, PartialEq, Eq)]
pub struct MarketingInfo {
    pub project: Option<String>,
    pub description: Option<String>,
    /// The address allowed to change the marketing information.
    pub marketing: Option<String>,
    pub logo: Option<LogoInfo>,
}

/// A balance handed out at instantiation.
#[derive(Debug, PartialEq, Eq)]
pub struct Cw20Coin {
    pub address: String,
    pub amount: u128,
}

#[derive(Debug, PartialEq, Eq)]
pub enum TokenError {
    Unauthorized,
    InvalidZeroAmount,
    CannotSetOwnAccount,
    /// The allowance has expired.
    Expired,
    /// No allowance for this account.
    NoAllowance,
    /// Minting cannot exceed the cap.
    CannotExceedCap,
    Logo(LogoError),
    /// "Initial supply greater than cap"
    InitialSupplyOverCap,
    /// "Name is not in the expected format (3-50 UTF-8 bytes)"
    InvalidName,
    /// "Ticker symbol is not in expected format [a-zA-Z\-]{3,12}"
    InvalidSymbol,
    /// "Decimals must not exceed 18"
    InvalidDecimals,
    /// "Cannot Sub with <balance> and <amount>": more was asked of a balance than it holds.
    CannotSub { balance: u128, amount: u128 },
    /// "Cannot Add with <balance> and <amount>": an allowance would overflow.
    CannotAdd { balance: u128, amount: u128 },
    /// "No vesting details found"
    NoVestingDetails,
    /// "No parent category found"
    NoParentCategory,
    /// "No vesting for this address"
    NoVestingForAddress,
    /// "Vesting Details not found"
    VestingDetailsNotFound,
    /// "No vesting details found for address <category>"
    NoCategoryVesting { category: String },
    /// A vesting category without an address.
    InvalidCategory,
    /// The logo is a link, or there is none.
    LogoNotFound,
    /// The token information was never set up.
    TokenInfoMissing,
    /// The balance query to the token contract failed.
    BalanceQueryFailed,
}

/// The balance of an address, 0 if none.
pub open spec fn balance_of(t: Seq<(Seq<char>, u128)>, who: Seq<char>) -> u128 {
    match lookup(t, who) {
        Some(b) => b,
        None => 0,
    }
}

/// The balances after `amount` moved from `from` to `to`.
pub open spec fn moved(t: Seq<(Seq<char>, u128)>, from: Seq<char>, to: Seq<char>, amount: u128) -> Seq<(Seq<char>, u128)> {
    let t1 = saved(t, from, (balance_of(t, from) - amount) as u128);
    saved(t1, to, (balance_of(t1, to) + amount) as u128)
}

/// A move of `amount` from `from` to `to` does not overflow the receiver.
pub open spec fn move_fits(t: Seq<(Seq<char>, u128)>, from: Seq<char>, to: Seq<char>, amount: u128) -> bool {
    from == to || balance_of(t, to) + amount <= u128::MAX
}

/// The response of a transfer or a burn: an action and its parties, then the amount.
pub open spec fn action_attrs(action: Seq<char>, parties: Seq<(Seq<char>, Seq<char>)>, amount: u128) -> Seq<(Seq<char>, Seq<char>)> {
    seq![("action"@, action)] + parties + seq![("amount"@, decimal_text(amount as nat))]
}

/// When an allowance runs out: at a block height, at a time (nanoseconds), or never.
#[derive(Clone, Copy, Debug, PartialEq, Eq)]
pub enum Expiration {
    AtHeight(u64),
    AtTime(u64),
    Never,
}

/// Whether an expiration has passed at a block of `height` and `time`.
pub open spec fn expired(e: Expiration, height: u64, time: u64) -> bool {
    match e {
        Expiration::AtHeight(h) => height >= h,
        Expiration::AtTime(t) => time >= t,
        Expiration::Never => false,
    }
}

/// What `spender` may move of `owner`'s tokens.
#[derive(Debug, PartialEq, Eq)]
pub struct AllowanceEntry {
    pub owner: String,
    pub spender: String,
    pub allowance: u128,
    pub expires: Expiration,
}

/// An allowance as (owner, spender, amount, expiration).
impl View for AllowanceEntry {
    type V = (Seq<char>, Seq<char>, u128, Expiration);

    open spec fn view(&self) -> (Seq<char>, Seq<char>, u128, Expiration) {
        (self.owner@, self.spender@, self.allowance, self.expires)
    }
}

/// The allowances as (owner, spender, amount, expiration).
pub open spec fn allowances_view(s: Seq<AllowanceEntry>) -> Seq<(Seq<char>, Seq<char>, u128, Expiration)> {
    s.map_values(|a: AllowanceEntry| a@)
}

/// A wallet's vesting schedule; times in nanoseconds, periods in seconds,
/// the cliff in months of thirty days.
#[derive(Debug, PartialEq, Eq)]
pub struct VestingDetails {
    pub vesting_start_timestamp: u64,
    pub initial_vesting_count: u128,
    pub initial_vesting_consumed: u128,
    pub vesting_periodicity: u64,
    pub vesting_count_per_period: u128,
    pub total_vesting_token_count: u128,
    pub total_claimed_tokens_till_now: u128,
    pub last_claimed_timestamp: u64,
    pub tokens_available_to_claim: u128,
    pub last_vesting_timestamp: u64,
    pub cliff_period: u64,
    /// The category wallet the tokens come from, for a sub-category.
    pub category_address: Option<String>,
}

/// A vesting schedule with its category wallet as text.
pub struct VestingView {
    pub vesting_start_timestamp: u64,
    pub initial_vesting_count: u128,
    pub initial_vesting_consumed: u128,
    pub vesting_periodicity: u64,
    pub vesting_count_per_period: u128,
    pub total_vesting_token_count: u128,
    pub total_claimed_tokens_till_now: u128,
    pub last_claimed_timestamp: u64,
    pub tokens_available_to_claim: u128,
    pub last_vesting_timestamp: u64,
    pub cliff_period: u64,
    pub category_address: Option<Seq<char>>,
}

/// An optional text as its characters.
pub open spec fn opt_text(s: Option<String>) -> Option<Seq<char>> {
    match s {
        Some(t) => Some(t@),
        None => None,
    }
}

impl View for VestingDetails {
    type V = VestingView;

    open spec fn view(&self) -> VestingView {
        VestingView {
            vesting_start_timestamp: self.vesting_start_timestamp,
            initial_vesting_count: self.initial_vesting_count,
            initial_vesting_consumed: self.initial_vesting_consumed,
            vesting_periodicity: self.vesting_periodicity,
            vesting_count_per_period: self.vesting_count_per_period,
            total_vesting_token_count: self.total_vesting_token_count,
            total_claimed_tokens_till_now: self.total_claimed_tokens_till_now,
            last_claimed_timestamp: self.last_claimed_timestamp,
            tokens_available_to_claim: self.tokens_available_to_claim,
            last_vesting_timestamp: self.last_vesting_timestamp,
            cliff_period: self.cliff_period,
            category_address: opt_text(self.category_address),
        }
    }
}

/// The balance of an address in a balance table.
pub fn balance_in(t: &Table<u128>, address: &String) -> (r: u128)
    requires
        t.wf(),
    ensures
        r == balance_of(t@, address@),
{
    match t.get(address) {
        Some(b) => *b,
        None => 0,
    }
}

/// Moves `amount` between two balances of a table; fails where `from` holds less.
pub fn move_between(t: &mut Table<u128>, from: &String, to: &String, amount: u128) -> (r: Result<(), TokenError>)
    requires
        old(t).wf(),
        balance_of(old(t)@, from@) >= amount ==> move_fits(old(t)@, from@, to@, amount),
    ensures
        final(t).wf(),
        balance_of(old(t)@, from@) < amount ==> r == Err::<(), TokenError>(
            TokenError::CannotSub { balance: balance_of(old(t)@, from@), amount },
        ) && *final(t) == *old(t),
        balance_of(old(t)@, from@) >= amount ==> r is Ok && final(t)@ == moved(old(t)@, from@, to@, amount),
{
    let have = balance_in(t, from);
    if have < amount {
        return Err(TokenError::CannotSub { balance: have, amount });
    }
    t.save(from.clone(), have - amount);
    proof {
        if from@ != to@ {
            crate::table::lemma_saved_lookup_other(old(t)@, from@, (have - amount) as u128, to@);
        } else {
            crate::table::lemma_saved_lookup_same(old(t)@, from@, (have - amount) as u128);
        }
    }
    let there = balance_in(t, to);
    t.save(to.clone(), there + amount);
    Ok(())
}

/// The fungible token's storage.
pub struct Token {
    pub token_info: TokenInfo,
    pub balances: Table<u128>,
    pub marketing: Option<MarketingInfo>,
    pub logo: Option<Logo>,
    pub vesting: Table<VestingDetails>,
    pub allowances: Vec<AllowanceEntry>,
}

impl Token {
    pub open spec fn wf(&self) -> bool {
        &&& self.balances.wf()
        &&& self.vesting.wf()
    }

    /// Marketing, logo, vesting and allowances are as in `o`.
    pub open spec fn same_books(&self, o: &Self) -> bool {
        &&& self.marketing == o.marketing
        &&& self.logo == o.logo
        &&& self.vesting == o.vesting
        &&& self.allowances == o.allowances
    }

    /// The balance of an address.
    pub open spec fn balance(&self, who: Seq<char>) -> u128 {
        balance_of(self.balances@, who)
    }

    /// The current balance of an address, 0 if it has none.
    pub fn query_balance(&self, address: &String) -> (r: u128)
        requires
            self.wf(),
        ensures
            r == self.balance(address@),
    {
        balance_in(&self.balances, address)
    }

    /// Moves `amount` from `from` to `to`; fails where `from` holds less.
    pub(crate) fn move_tokens(&mut self, from: &String, to: &String, amount: u128) -> (r: Result<(), TokenError>)
        requires
            old(self).wf(),
            old(self).balance(from@) >= amount ==> move_fits(old(self).balances@, from@, to@, amount),
        ensures
            final(self).wf(),
            final(self).token_info == old(self).token_info,
            final(self).same_books(old(self)),
            old(self).balance(from@) < amount ==> r == Err::<(), TokenError>(
                TokenError::CannotSub { balance: old(self).balance(from@), amount },
            ) && final(self).balances == old(self).balances,
            old(self).balance(from@) >= amount ==> r is Ok && final(self).balances@ == moved(
                old(self).balances@,
                from@,
                to@,
                amount,
            ),
    {
        move_between(&mut self.balances, from, to, amount)
    }

    /// Moves `amount` of the sender's tokens to `recipient`.
    pub fn execute_transfer(&mut self, sender: &String, recipient: String, amount: u128) -> (r: Result<Response, TokenError>)
        requires
            old(self).wf(),
            amount > 0 && old(self).balance(sender@) >= amount ==> move_fits(old(self).balances@, sender@, recipient@, amount),
        ensures
            final(self).wf(),
            amount == 0 ==> r == Err::<Response, TokenError>(TokenError::InvalidZeroAmount) && *final(self) == *old(self),
            amount > 0 && old(self).balance(sender@) < amount ==> r == Err::<Response, TokenError>(
                TokenError::CannotSub { balance: old(self).balance(sender@), amount },
            ) && *final(self) == *old(self),
            amount > 0 && old(self).balance(sender@) >= amount ==> ({
                &&& r matches Ok(resp) && resp.messages@.len() == 0 && resp.data.is_none() && resp.attrs()
                    == action_attrs("transfer"@, seq![("from"@, sender@), ("to"@, recipient@)], amount)
                &&& final(self).balances@ == moved(old(self).balances@, sender@, recipient@, amount)
                &&& final(self).token_info == old(self).token_info
                &&& final(self).same_books(old(self))
            }),
    {
        if amount == 0 {
            return Err(TokenError::InvalidZeroAmount);
        }
        match self.move_tokens(sender, &recipient, amount) {
            Err(e) => {
                return Err(e);
            },
            Ok(()) => {},
        }
        let mut resp = Response::empty();
        resp.add_attr("action", String::from_str("transfer"));
        resp.add_attr("from", sender.clone());
        resp.add_attr("to", recipient);
        resp.add_attr("amount", decimal(amount));
        assert(resp.attrs() =~= action_attrs("transfer"@, seq![("from"@, sender@), ("to"@, recipient@)], amount));
        Ok(resp)
    }

    /// Burns `amount` of the sender's tokens, lowering the total supply.
    pub fn execute_burn(&mut self, sender: &String, amount: u128) -> (r: Result<Response, TokenError>)
        requires
            old(self).wf(),
        ensures
            final(self).wf(),
            amount == 0 ==> r == Err::<Response, TokenError>(TokenError::InvalidZeroAmount) && *final(self) == *old(self),
            amount > 0 && old(self).balance(sender@) < amount ==> r == Err::<Response, TokenError>(
                TokenError::CannotSub { balance: old(self).balance(sender@), amount },
            ) && *final(self) == *old(self),
            amount > 0 && old(self).balance(sender@) >= amount && old(self).token_info.total_supply < amount ==> r
                == Err::<Response, TokenError>(
                TokenError::CannotSub { balance: old(self).token_info.total_supply, amount },
            ) && *final(self) == *old(self),
            amount > 0 && old(self).balance(sender@) >= amount && old(self).token_info.total_supply >= amount ==> ({
                &&& r matches Ok(resp) && resp.messages@.len() == 0 && resp.data.is_none() && resp.attrs()
                    == action_attrs("burn"@, seq![("from"@, sender@)], amount)
                &&& final(self).balances@ == saved(
                    old(self).balances@,
                    sender@,
                    (old(self).balance(sender@) - amount) as u128,
                )
                &&& final(self).token_info == TokenInfo {
                    total_supply: (old(self).token_info.total_supply - amount) as u128,
                    ..old(self).token_info
                }
                &&& final(self).same_books(old(self))
            }),
    {
        if amount == 0 {
            return Err(TokenError::InvalidZeroAmount);
        }
        let have = self.query_balance(sender);
        if have < amount {
            return Err(TokenError::CannotSub { balance: have, amount });
        }
        if self.token_info.total_supply < amount {
            return Err(TokenError::CannotSub { balance: self.token_info.total_supply, amount });
        }
        self.balances.save(sender.clone(), have - amount);
        self.token_info.total_supply = self.token_info.total_supply - amount;
        let mut resp = Response::empty();
        resp.add_attr("action", String::from_str("burn"));
        resp.add_attr("from", sender.clone());
        resp.add_attr("amount", decimal(amount));
        assert(resp.attrs() =~= action_attrs("burn"@, seq![("from"@, sender@)], amount));
        Ok(resp)
    }

    /// Whether `who` may mint.
    pub open spec fn is_minter(&self, who: Seq<char>) -> bool {
        self.token_info.mint matches Some(m) && m.minter@ == who
    }

    /// The cap on the total supply, if any.
    pub open spec fn cap(&self) -> Option<u128> {
        match self.token_info.mint {
            Some(m) => m.cap,
            None => None,
        }
    }

    /// The minter only: creates `amount` new tokens for `recipient`, within the cap.
    pub fn execute_mint(&mut self, sender: &String, recipient: String, amount: u128) -> (r: Result<Response, TokenError>)
        requires
            old(self).wf(),
            amount > 0 && old(self).is_minter(sender@) ==> {
                &&& old(self).token_info.total_supply + amount <= u128::MAX
                &&& !(old(self).cap() matches Some(c) && old(self).token_info.total_supply + amount > c) ==> old(
                    self,
                ).balance(recipient@) + amount <= u128::MAX
            },
        ensures
            final(self).wf(),
            amount == 0 ==> r == Err::<Response, TokenError>(TokenError::InvalidZeroAmount) && *final(self) == *old(self),
            amount > 0 && !old(self).is_minter(sender@) ==> r == Err::<
                Response,
                TokenError,
            >(TokenError::Unauthorized) && *final(self) == *old(self),
            amount > 0 && old(self).is_minter(sender@) ==> ({
                let supply = old(self).token_info.total_supply + amount;
                if old(self).cap() matches Some(c) && supply > c {
                    r == Err::<Response, TokenError>(TokenError::CannotExceedCap) && *final(self) == *old(self)
                } else {
                    &&& r matches Ok(resp) && resp.messages@.len() == 0 && resp.data.is_none() && resp.attrs()
                        == action_attrs("mint"@, seq![("to"@, recipient@)], amount)
                    &&& final(self).token_info == TokenInfo { total_supply: supply as u128, ..old(self).token_info }
                    &&& final(self).balances@ == saved(
                        old(self).balances@,
                        recipient@,
                        (old(self).balance(recipient@) + amount) as u128,
                    )
                    &&& final(self).same_books(old(self))
                }
            }),
    {
        if amount == 0 {
            return Err(TokenError::InvalidZeroAmount);
        }
        let cap = match &self.token_info.mint {
            None => {
                return Err(TokenError::Unauthorized);
            },
            Some(m) => {
                if !m.minter.eq(sender) {
                    return Err(TokenError::Unauthorized);
                }
                m.cap
            },
        };
        let supply = self.token_info.total_supply + amount;
        match cap {
            Some(c) => {
                if supply > c {
                    return Err(TokenError::CannotExceedCap);
                }
            },
            None => {},
        }
        self.token_info.total_supply = supply;
        let there = self.query_balance(&recipient);
        self.balances.save(recipient.clone(), there + amount);
        let mut resp = Response::empty();
        resp.add_attr("action", String::from_str("mint"));
        resp.add_attr("to", recipient);
        resp.add_attr("amount", decimal(amount));
        assert(resp.attrs() =~= action_attrs("mint"@, seq![("to"@, recipient@)], amount));
        Ok(resp)
    }

    /// Moves `amount` of the sender's tokens to `contract` and tells the
    /// contract about it, with `msg`.
    pub fn execute_send(&mut self, sender: &String, contract: String, amount: u128, msg: Vec<u8>) -> (r: Result<
        Response,
        TokenError,
    >)
        requires
            old(self).wf(),
            amount > 0 && old(self).balance(sender@) >= amount ==> move_fits(old(self).balances@, sender@, contract@, amount),
        ensures
            final(self).wf(),
            amount == 0 ==> r == Err::<Response, TokenError>(TokenError::InvalidZeroAmount) && *final(self) == *old(self),
            amount > 0 && old(self).balance(sender@) < amount ==> r == Err::<Response, TokenError>(
                TokenError::CannotSub { balance: old(self).balance(sender@), amount },
            ) && *final(self) == *old(self),
            amount > 0 && old(self).balance(sender@) >= amount ==> ({
                &&& r matches Ok(resp) && resp.data.is_none() && resp.attrs() == action_attrs(
                    "send"@,
                    seq![("from"@, sender@), ("to"@, contract@)],
                    amount,
                ) && resp.messages@ == seq![Msg::Receive { contract, sender: *sender, amount, msg }]
                &&& final(self).balances@ == moved(old(self).balances@, sender@, contract@, amount)
                &&& final(self).token_info == old(self).token_info
                &&& final(self).same_books(old(self))
            }),
    {
        if amount == 0 {
            return Err(TokenError::InvalidZeroAmount);
        }
        match self.move_tokens(sender, &contract, amount) {
            Err(e) => {
                return Err(e);
            },
            Ok(()) => {},
        }
        let mut resp = Response::empty();
        resp.add_attr("action", String::from_str("send"));
        resp.add_attr("from", sender.clone());
        resp.add_attr("to", contract.clone());
        resp.add_attr("amount", decimal(amount));
        resp.add_msg(Msg::Receive { contract, sender: sender.clone(), amount, msg });
        assert(resp.attrs() =~= action_attrs("send"@, seq![("from"@, sender@), ("to"@, contract@)], amount));
        assert(resp.messages@ =~= seq![Msg::Receive { contract, sender: *sender, amount, msg }]);
        Ok(resp)
    }
}

} // verus!
