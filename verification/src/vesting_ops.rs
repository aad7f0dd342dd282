//! The vesting operations: the main wallet hands the categories what they
//! have vested, the investors' vested tokens become allowances on their
//! category, and investors claim them.
use vstd::prelude::*;
use vstd::string::StringExecFns;
use crate::response::{Response, decimal, decimal_text};
use crate::table::{Table, has_key, lookup, saved};
use crate::token::{
    AllowanceEntry, Expiration, Token, TokenError, VestingDetails, VestingView, action_attrs, allowances_view,
    balance_in, balance_of, expired, move_between, move_fits, moved,
};
use crate::vesting::{
    VestingInfo, calculate_total_distribution, clone_schedule, infos_total, infos_view, main_wallet, main_wallet_address,
    schedule_of, schedule_ready, total_distribution_checked, transfer_details, vesting_details_due, ajay_address, ajay_wallet,
    gamified_airdrop_address, gamified_airdrop_wallet, nitin_address, nitin_wallet, private_sale_address,
    private_sale_wallet, sameer_address, sameer_wallet,
};

verus! {

/// A schedule after `amount` was transferred to its wallet: it counts as
/// claimed where that stays within the total, and the initial count as consumed.
pub open spec fn after_transfer(v: VestingView, amount: u128, now: u64) -> VestingView {
    let n = v.total_claimed_tokens_till_now + amount;
    let v1 = if n <= v.total_vesting_token_count {
        VestingView {
            total_claimed_tokens_till_now: n as u128,
            last_vesting_timestamp: now,
            last_claimed_timestamp: now,
            ..v
        }
    } else {
        v
    };
    VestingView { initial_vesting_consumed: v.initial_vesting_count, ..v1 }
}

/// The amount newly made available of a vesting of `amount`: available and
/// new together, capped at what the total leaves after the claimed tokens.
pub open spec fn newly_available(v: VestingView, amount: u128) -> int {
    let n = v.tokens_available_to_claim + amount;
    if v.total_claimed_tokens_till_now + n > v.total_vesting_token_count {
        v.total_vesting_token_count - v.total_claimed_tokens_till_now
    } else {
        n
    }
}

/// A schedule after `amount` vested: the newly available amount is added to
/// what is available, except at the first vesting, which makes the initial
/// count available; the vesting time moves to now.
pub open spec fn after_vesting(v: VestingView, amount: u128, now: u64) -> VestingView {
    let v1 = if v.vesting_start_timestamp == v.last_vesting_timestamp {
        VestingView {
            tokens_available_to_claim: v.initial_vesting_count,
            initial_vesting_consumed: v.initial_vesting_count,
            ..v
        }
    } else {
        VestingView { tokens_available_to_claim: (v.tokens_available_to_claim + newly_available(v, amount)) as u128, ..v }
    };
    VestingView { last_vesting_timestamp: now, ..v1 }
}

/// A vesting of `amount` runs without overflow or underflow.
pub open spec fn vesting_fits(v: VestingView, amount: u128) -> bool {
    let n = v.tokens_available_to_claim + amount;
    &&& n <= u128::MAX
    &&& v.total_claimed_tokens_till_now + n <= u128::MAX
    &&& v.total_claimed_tokens_till_now + n > v.total_vesting_token_count ==> v.total_claimed_tokens_till_now
        <= v.total_vesting_token_count
    &&& v.tokens_available_to_claim + newly_available(v, amount) <= u128::MAX
}

/// What recording a transfer and a vesting does to a wallet's schedule; an
/// error where something is to be recorded and the wallet has no schedule.
pub open spec fn schedule_updated(
    t: Seq<(Seq<char>, VestingView)>,
    wallet: Seq<char>,
    now: u64,
    transferred: Option<u128>,
    vestable: Option<u128>,
) -> Result<Seq<(Seq<char>, VestingView)>, TokenError> {
    if transferred is None && vestable is None {
        Ok(t)
    } else if !has_key(t, wallet) {
        Err(TokenError::VestingDetailsNotFound)
    } else {
        let v = schedule_of(t, wallet);
        let v1 = match transferred {
            Some(a) => after_transfer(v, a, now),
            None => v,
        };
        let v2 = match vestable {
            Some(a) => after_vesting(v1, a, now),
            None => v1,
        };
        Ok(saved(t, wallet, v2))
    }
}

/// Recording a transfer and a vesting runs without overflow.
pub open spec fn schedule_update_fits(
    t: Seq<(Seq<char>, VestingView)>,
    wallet: Seq<char>,
    now: u64,
    transferred: Option<u128>,
    vestable: Option<u128>,
) -> bool {
    let v = schedule_of(t, wallet);
    let v1 = match transferred {
        Some(a) => after_transfer(v, a, now),
        None => v,
    };
    has_key(t, wallet) ==> {
        &&& (transferred matches Some(a) ==> v.total_claimed_tokens_till_now + a <= u128::MAX)
        &&& (vestable matches Some(a) ==> vesting_fits(v1, a))
    }
}

fn transferred_schedule(v: &VestingDetails, amount: u128, now: u64) -> (r: VestingDetails)
    requires
        v.total_claimed_tokens_till_now + amount <= u128::MAX,
    ensures
        r@ == after_transfer(v@, amount, now),
{
    let mut u = clone_schedule(v);
    let n = u.total_claimed_tokens_till_now + amount;
    if n <= u.total_vesting_token_count {
        u.total_claimed_tokens_till_now = n;
        u.last_vesting_timestamp = now;
        u.last_claimed_timestamp = now;
    }
    u.initial_vesting_consumed = u.initial_vesting_count;
    u
}

fn vested_schedule(v: &VestingDetails, amount: u128, now: u64) -> (r: VestingDetails)
    requires
        vesting_fits(v@, amount),
    ensures
        r@ == after_vesting(v@, amount, now),
{
    let mut u = clone_schedule(v);
    let n = u.tokens_available_to_claim + amount;
    let mut fresh = n;
    if u.total_claimed_tokens_till_now + n > u.total_vesting_token_count {
        fresh = u.total_vesting_token_count - u.total_claimed_tokens_till_now;
    }
    u.tokens_available_to_claim = u.tokens_available_to_claim + fresh;
    if u.vesting_start_timestamp == u.last_vesting_timestamp {
        u.tokens_available_to_claim = u.initial_vesting_count;
        u.initial_vesting_consumed = u.initial_vesting_count;
    }
    u.last_vesting_timestamp = now;
    u
}

/// Records a transfer and a vesting in a wallet's schedule.
fn update_schedule(
    t: &mut Table<VestingDetails>,
    wallet: &String,
    now: u64,
    transferred: Option<u128>,
    vestable: Option<u128>,
) -> (r: Result<(), TokenError>)
    requires
        old(t).wf(),
        schedule_update_fits(old(t)@, wallet@, now, transferred, vestable),
    ensures
        final(t).wf(),
        match schedule_updated(old(t)@, wallet@, now, transferred, vestable) {
            Ok(n) => r is Ok && final(t)@ == n,
            Err(e) => r == Err::<(), TokenError>(e) && *final(t) == *old(t),
        },
{
    if transferred.is_none() && vestable.is_none() {
        return Ok(());
    }
    let v = match t.get(wallet) {
        Some(v) => clone_schedule(v),
        None => {
            return Err(TokenError::VestingDetailsNotFound);
        },
    };
    let v1 = match transferred {
        Some(a) => transferred_schedule(&v, a, now),
        None => v,
    };
    let v2 = match vestable {
        Some(a) => vested_schedule(&v1, a, now),
        None => v1,
    };
    t.save(wallet.clone(), v2);
    Ok(())
}

/// One transfer from the main wallet to a category: the balances and
/// schedules after it, or the error that stops it.
pub open spec fn transfer_step(
    st: (Seq<(Seq<char>, u128)>, Seq<(Seq<char>, VestingView)>),
    i: (Seq<char>, Option<Seq<char>>, u128),
    now: u64,
) -> Result<(Seq<(Seq<char>, u128)>, Seq<(Seq<char>, VestingView)>), TokenError> {
    if i.2 == 0 {
        Err(TokenError::InvalidZeroAmount)
    } else if balance_of(st.0, main_wallet()) < i.2 {
        Err(TokenError::CannotSub { balance: balance_of(st.0, main_wallet()), amount: i.2 })
    } else {
        match schedule_updated(st.1, i.0, now, Some(i.2), None) {
            Err(e) => Err(e),
            Ok(t) => Ok((moved(st.0, main_wallet(), i.0, i.2), t)),
        }
    }
}

/// The transfers of a list, one after the other; the first error stops them.
pub open spec fn transfers_applied(
    st: (Seq<(Seq<char>, u128)>, Seq<(Seq<char>, VestingView)>),
    items: Seq<(Seq<char>, Option<Seq<char>>, u128)>,
    now: u64,
) -> Result<(Seq<(Seq<char>, u128)>, Seq<(Seq<char>, VestingView)>), TokenError>
    decreases items.len(),
{
    if items.len() == 0 {
        Ok(st)
    } else {
        match transfers_applied(st, items.drop_last(), now) {
            Err(e) => Err(e),
            Ok(s) => transfer_step(s, items.last(), now),
        }
    }
}

/// No transfer of the list overflows a balance or a claimed count.
pub open spec fn transfers_fit(
    st: (Seq<(Seq<char>, u128)>, Seq<(Seq<char>, VestingView)>),
    items: Seq<(Seq<char>, Option<Seq<char>>, u128)>,
    now: u64,
) -> bool
    decreases items.len(),
{
    if items.len() == 0 {
        true
    } else {
        &&& transfers_fit(st, items.drop_last(), now)
        &&& match transfers_applied(st, items.drop_last(), now) {
            Err(_) => true,
            Ok(s) => {
                let i = items.last();
                &&& move_fits(s.0, main_wallet(), i.0, i.2)
                &&& schedule_update_fits(s.1, i.0, now, Some(i.2), None)
            },
        }
    }
}

/// The attributes of the transfers of a list.
pub open spec fn transfer_attrs(items: Seq<(Seq<char>, Option<Seq<char>>, u128)>) -> Seq<(Seq<char>, Seq<char>)>
    decreases items.len(),
{
    if items.len() == 0 {
        Seq::empty()
    } else {
        let i = items.last();
        transfer_attrs(items.drop_last()) + action_attrs(
            "transfer"@,
            seq![("from"@, main_wallet()), ("to"@, i.0)],
            i.2,
        ) + seq![("kuchha hua"@, "Pata nahi"@)]
    }
}

/// Once a list of steps fails, every longer list fails the same way.
pub proof fn lemma_transfers_err_stays(
    st: (Seq<(Seq<char>, u128)>, Seq<(Seq<char>, VestingView)>),
    items: Seq<(Seq<char>, Option<Seq<char>>, u128)>,
    now: u64,
    k: int,
)
    requires
        0 <= k <= items.len(),
        transfers_applied(st, items.take(k), now) is Err,
    ensures
        transfers_applied(st, items, now) == transfers_applied(st, items.take(k), now),
    decreases items.len(),
{
    if k < items.len() {
        assert(items.drop_last().take(k) =~= items.take(k));
        lemma_transfers_err_stays(st, items.drop_last(), now, k);
    } else {
        assert(items.take(k) =~= items);
    }
}

pub proof fn lemma_transfers_fit_prefix(
    st: (Seq<(Seq<char>, u128)>, Seq<(Seq<char>, VestingView)>),
    items: Seq<(Seq<char>, Option<Seq<char>>, u128)>,
    now: u64,
    k: int,
)
    requires
        0 <= k <= items.len(),
        transfers_fit(st, items, now),
    ensures
        transfers_fit(st, items.take(k), now),
    decreases items.len(),
{
    if k < items.len() {
        assert(items.drop_last().take(k) =~= items.take(k));
        lemma_transfers_fit_prefix(st, items.drop_last(), now, k);
    } else {
        assert(items.take(k) =~= items);
    }
}

/// Once a list of transfers fails, the transfers after the failure fit.
pub proof fn lemma_transfers_fit_after_err(
    st: (Seq<(Seq<char>, u128)>, Seq<(Seq<char>, VestingView)>),
    items: Seq<(Seq<char>, Option<Seq<char>>, u128)>,
    now: u64,
    k: int,
)
    requires
        0 <= k <= items.len(),
        transfers_applied(st, items.take(k), now) is Err,
        transfers_fit(st, items.take(k), now),
    ensures
        transfers_fit(st, items, now),
    decreases items.len(),
{
    if k < items.len() {
        assert(items.drop_last().take(k) =~= items.take(k));
        lemma_transfers_fit_after_err(st, items.drop_last(), now, k);
        lemma_transfers_err_stays(st, items.drop_last(), now, k);
    } else {
        assert(items.take(k) =~= items);
    }
}

/// Whether a move of `amount` from `from` to `to` leaves the receiver within an amount.
fn move_fits_in(t: &Table<u128>, from: &String, to: &String, amount: u128) -> (r: bool)
    requires
        t.wf(),
    ensures
        r == move_fits(t@, from@, to@, amount),
{
    from.eq(to) || balance_in(t, to).checked_add(amount).is_some()
}

/// Whether a vesting of `amount` runs without overflow or underflow.
fn vesting_fits_at(v: &VestingDetails, amount: u128) -> (r: bool)
    ensures
        r == vesting_fits(v@, amount),
{
    let n = match v.tokens_available_to_claim.checked_add(amount) {
        Some(x) => x,
        None => {
            return false;
        },
    };
    let claimed_and_new = match v.total_claimed_tokens_till_now.checked_add(n) {
        Some(x) => x,
        None => {
            return false;
        },
    };
    if claimed_and_new > v.total_vesting_token_count {
        if v.total_claimed_tokens_till_now > v.total_vesting_token_count {
            return false;
        }
        v.tokens_available_to_claim.checked_add(v.total_vesting_token_count - v.total_claimed_tokens_till_now).is_some()
    } else {
        v.tokens_available_to_claim.checked_add(n).is_some()
    }
}

/// Whether recording a transfer and a vesting runs without overflow.
fn schedule_update_fits_in(
    t: &Table<VestingDetails>,
    wallet: &String,
    now: u64,
    transferred: Option<u128>,
    vestable: Option<u128>,
) -> (r: bool)
    requires
        t.wf(),
    ensures
        r == schedule_update_fits(t@, wallet@, now, transferred, vestable),
{
    match t.get(wallet) {
        None => true,
        Some(v) => {
            let v1 = match transferred {
                Some(a) => {
                    if v.total_claimed_tokens_till_now.checked_add(a).is_none() {
                        return false;
                    }
                    transferred_schedule(v, a, now)
                },
                None => clone_schedule(v),
            };
            match vestable {
                Some(a) => vesting_fits_at(&v1, a),
                None => true,
            }
        },
    }
}

impl Token {
    /// Whether the main wallet's transfers to the categories run without
    /// overflow or underflow, as the transfers themselves need.
    pub fn transfers_ready(&self, sender: &String, now: u64) -> (r: bool)
        requires
            self.wf(),
        ensures
            r == (sender@ == main_wallet() ==> {
                &&& schedule_ready(self.vesting@, gamified_airdrop_wallet(), now)
                &&& schedule_ready(self.vesting@, private_sale_wallet(), now)
                &&& transfer_details(self.vesting@, now) matches Ok(items) ==> {
                    &&& infos_total(items) <= u128::MAX
                    &&& transfers_fit((self.balances@, self.vesting@), items, now)
                }
            }),
    {
        let main = main_wallet_address();
        if !main.eq(sender) {
            return true;
        }
        if !self.schedule_computable(&gamified_airdrop_address(), now) || !self.schedule_computable(&private_sale_address(), now) {
            return false;
        }
        let details = match self.populate_transfer_details(now) {
            Err(_) => {
                return true;
            },
            Ok(d) => d,
        };
        let ghost items = infos_view(details@);
        if total_distribution_checked(&details).is_none() {
            return false;
        }
        let ghost st0 = (self.balances@, self.vesting@);
        let mut bal = self.balances.duplicate(|b: &u128| -> (c: u128)
            ensures
                c == *b,
            { *b });
        let mut vest = self.vesting.duplicate(|v: &VestingDetails| -> (w: VestingDetails)
            ensures
                w == *v,
            { clone_schedule(v) });
        assert(items.take(0) =~= Seq::<(Seq<char>, Option<Seq<char>>, u128)>::empty());
        let mut i: usize = 0;
        while i < details.len()
            invariant
                i <= items.len(),
                items == infos_view(details@),
                main@ == main_wallet(),
                bal.wf(),
                vest.wf(),
                transfers_fit(st0, items.take(i as int), now),
                transfers_applied(st0, items.take(i as int), now) == Ok::<
                    (Seq<(Seq<char>, u128)>, Seq<(Seq<char>, VestingView)>),
                    TokenError,
                >((bal@, vest@)),
                self.wf(),
                sender@ == main_wallet(),
                schedule_ready(self.vesting@, gamified_airdrop_wallet(), now),
                schedule_ready(self.vesting@, private_sale_wallet(), now),
                transfer_details(self.vesting@, now) == Ok::<Seq<(Seq<char>, Option<Seq<char>>, u128)>, TokenError>(items),
                infos_total(items) <= u128::MAX,
                st0 == (self.balances@, self.vesting@),
            decreases items.len() - i,
        {
            proof {
                assert(items.take(i + 1).drop_last() =~= items.take(i as int));
                assert(items[i as int] == details@[i as int]@);
            }
            let spender = details[i].spender_address.clone();
            let amount = details[i].amount;
            if !move_fits_in(&bal, &main, &spender, amount) || !schedule_update_fits_in(&vest, &spender, now, Some(amount), None) {
                proof {
                    if transfers_fit(st0, items, now) {
                        lemma_transfers_fit_prefix(st0, items, now, i + 1);
                    }
                }
                return false;
            }
            assert(transfers_fit(st0, items.take(i + 1), now));
            if amount == 0 {
                proof {
                    lemma_transfers_fit_after_err(st0, items, now, i + 1);
                }
                return true;
            }
            let have = balance_in(&bal, &main);
            if have < amount {
                proof {
                    lemma_transfers_fit_after_err(st0, items, now, i + 1);
                }
                return true;
            }
            match update_schedule(&mut vest, &spender, now, Some(amount), None) {
                Err(_) => {
                    proof {
                        lemma_transfers_fit_after_err(st0, items, now, i + 1);
                    }
                    return true;
                },
                Ok(()) => {},
            }
            match move_between(&mut bal, &main, &spender, amount) {
                Err(_) => {
                    return true;
                },
                Ok(()) => {},
            }
            i = i + 1;
        }
        assert(items.take(items.len() as int) =~= items);
        true
    }

    /// Moves `amount` from `sender` to `recipient` (a category's share of a distribution).
    pub fn distribute_vested(&mut self, sender: String, recipient: String, amount: u128) -> (r: Result<
        Response,
        TokenError,
    >)
        requires
            old(self).wf(),
            amount > 0 && old(self).balance(sender@) >= amount ==> move_fits(old(self).balances@, sender@, recipient@, amount),
        ensures
            final(self).wf(),
            amount == 0 ==> r == Err::<Response, TokenError>(TokenError::InvalidZeroAmount) && *final(self) == *old(self),
            amount > 0 && old(self).balance(sender@) < amount ==> r == Err::<Response, TokenError>(
                TokenError::CannotSub { balance: old(self).balance(sender@), amount },
            ) && *final(self) == *old(self),
            amount > 0 && old(self).balance(sender@) >= amount ==> ({
                &&& r matches Ok(resp) && resp.messages@.len() == 0 && resp.data.is_none() && resp.attrs()
                    == action_attrs("transfer"@, seq![("from"@, sender@), ("to"@, recipient@)], amount)
                &&& final(self).balances@ == moved(old(self).balances@, sender@, recipient@, amount)
                &&& final(self).token_info == old(self).token_info
                &&& final(self).same_books(old(self))
            }),
    {
        if amount == 0 {
            return Err(TokenError::InvalidZeroAmount);
        }
        match self.move_tokens(&sender, &recipient, amount) {
            Err(e) => {
                return Err(e);
            },
            Ok(()) => {},
        }
        let mut resp = Response::empty();
        resp.add_attr("action", String::from_str("transfer"));
        resp.add_attr("from", sender);
        resp.add_attr("to", recipient);
        resp.add_attr("amount", decimal(amount));
        assert(resp.attrs() =~= action_attrs("transfer"@, seq![("from"@, sender@), ("to"@, recipient@)], amount));
        Ok(resp)
    }

    /// Records a transfer to a wallet and a vesting for it in the wallet's schedule.
    pub fn update_vesting_details(
        &mut self,
        address: &String,
        execution_timestamp: u64,
        transferred: Option<u128>,
        vestable: Option<u128>,
    ) -> (r: Result<Response, TokenError>)
        requires
            old(self).wf(),
            schedule_update_fits(old(self).vesting@, address@, execution_timestamp, transferred, vestable),
        ensures
            final(self).wf(),
            match schedule_updated(old(self).vesting@, address@, execution_timestamp, transferred, vestable) {
                Ok(t) => r matches Ok(resp) && resp.messages@.len() == 0 && resp.attrs().len() == 0 && resp.data.is_none()
                    && final(self).vesting@ == t && final(self).balances == old(self).balances && final(self).token_info
                    == old(self).token_info && final(self).allowances == old(self).allowances && final(self).marketing
                    == old(self).marketing && final(self).logo == old(self).logo,
                Err(e) => r == Err::<Response, TokenError>(e) && *final(self) == *old(self),
            },
    {
        match update_schedule(&mut self.vesting, address, execution_timestamp, transferred, vestable) {
            Err(e) => Err(e),
            Ok(()) => Ok(Response::empty()),
        }
    }

    /// The main wallet only: hands the gamified airdrop and private sale
    /// categories what they have vested by now, and records it in their schedules.
    pub fn periodically_transfer_to_categories(&mut self, sender: &String, now: u64) -> (r: Result<Response, TokenError>)
        requires
            old(self).wf(),
            sender@ == main_wallet() ==> {
                &&& schedule_ready(old(self).vesting@, gamified_airdrop_wallet(), now)
                &&& schedule_ready(old(self).vesting@, private_sale_wallet(), now)
                &&& transfer_details(old(self).vesting@, now) matches Ok(items) ==> {
                    &&& infos_total(items) <= u128::MAX
                    &&& transfers_fit((old(self).balances@, old(self).vesting@), items, now)
                }
            },
        ensures
            final(self).wf(),
            sender@ != main_wallet() ==> r == Err::<Response, TokenError>(TokenError::Unauthorized) && *final(self)
                == *old(self),
            sender@ == main_wallet() ==> match transfer_details(old(self).vesting@, now) {
                Err(e) => r == Err::<Response, TokenError>(e) && *final(self) == *old(self),
                Ok(items) => if old(self).balance(main_wallet()) < infos_total(items) {
                    r == Err::<Response, TokenError>(
                        TokenError::CannotSub {
                            balance: old(self).balance(main_wallet()),
                            amount: infos_total(items) as u128,
                        },
                    ) && *final(self) == *old(self)
                } else {
                    match transfers_applied((old(self).balances@, old(self).vesting@), items, now) {
                        Err(e) => r == Err::<Response, TokenError>(e) && *final(self) == *old(self),
                        Ok(st) => {
                            &&& r matches Ok(resp) && resp.messages@.len() == 0 && resp.data.is_none() && resp.attrs()
                                == transfer_attrs(items)
                            &&& final(self).balances@ == st.0
                            &&& final(self).vesting@ == st.1
                            &&& final(self).token_info == old(self).token_info
                            &&& final(self).allowances == old(self).allowances
                            &&& final(self).marketing == old(self).marketing
                            &&& final(self).logo == old(self).logo
                        },
                    }
                },
            },
    {
        let main = main_wallet_address();
        if !main.eq(sender) {
            return Err(TokenError::Unauthorized);
        }
        let details = match self.populate_transfer_details(now) {
            Err(e) => {
                return Err(e);
            },
            Ok(d) => d,
        };
        let ghost items = infos_view(details@);
        let total = calculate_total_distribution(&details);
        let balance = self.query_balance(&main);
        if balance < total {
            return Err(TokenError::CannotSub { balance, amount: total });
        }
        let ghost st0 = (self.balances@, self.vesting@);
        let mut bal = self.balances.duplicate(|b: &u128| -> (c: u128)
            ensures
                c == *b,
            { *b });
        let mut vest = self.vesting.duplicate(|v: &VestingDetails| -> (w: VestingDetails)
            ensures
                w == *v,
            { clone_schedule(v) });
        let mut resp = Response::empty();
        let mut i: usize = 0;
        while i < details.len()
            invariant
                i <= items.len(),
                items == infos_view(details@),
                main@ == main_wallet(),
                bal.wf(),
                vest.wf(),
                transfers_fit(st0, items, now),
                transfers_applied(st0, items.take(i as int), now) == Ok::<
                    (Seq<(Seq<char>, u128)>, Seq<(Seq<char>, VestingView)>),
                    TokenError,
                >((bal@, vest@)),
                resp.messages@.len() == 0,
                resp.data.is_none(),
                resp.attrs() == transfer_attrs(items.take(i as int)),
                *self == *old(self),
                old(self).wf(),
                sender@ == main_wallet(),
                transfer_details(old(self).vesting@, now) == Ok::<
                    Seq<(Seq<char>, Option<Seq<char>>, u128)>,
                    TokenError,
                >(items),
                old(self).balance(main_wallet()) >= infos_total(items),
                st0 == (old(self).balances@, old(self).vesting@),
            decreases items.len() - i,
        {
            proof {
                assert(items.take(i + 1).drop_last() =~= items.take(i as int));
                lemma_transfers_fit_prefix(st0, items, now, i + 1);
                assert(items[i as int] == details@[i as int]@);
            }
            let spender = details[i].spender_address.clone();
            let amount = details[i].amount;
            if amount == 0 {
                proof {
                    lemma_transfers_err_stays(st0, items, now, i + 1);
                }
                return Err(TokenError::InvalidZeroAmount);
            }
            let have = balance_in(&bal, &main);
            if have < amount {
                proof {
                    lemma_transfers_err_stays(st0, items, now, i + 1);
                }
                return Err(TokenError::CannotSub { balance: have, amount });
            }
            match update_schedule(&mut vest, &spender, now, Some(amount), None) {
                Err(e) => {
                    proof {
                        lemma_transfers_err_stays(st0, items, now, i + 1);
                    }
                    return Err(e);
                },
                Ok(()) => {},
            }
            match move_between(&mut bal, &main, &spender, amount) {
                Err(e) => {
                    return Err(e);
                },
                Ok(()) => {},
            }
            let ghost a0 = resp.attrs();
            resp.add_attr("action", String::from_str("transfer"));
            resp.add_attr("from", main.clone());
            resp.add_attr("to", spender);
            resp.add_attr("amount", decimal(amount));
            resp.add_attr("kuchha hua", String::from_str("Pata nahi"));
            assert(resp.attrs() =~= a0 + action_attrs(
                "transfer"@,
                seq![("from"@, main_wallet()), ("to"@, items[i as int].0)],
                amount,
            ) + seq![("kuchha hua"@, "Pata nahi"@)]);
            i = i + 1;
        }
        assert(items.take(items.len() as int) =~= items);
        self.balances = bal;
        self.vesting = vest;
        Ok(resp)
    }
}

/// The allowances as (owner, spender, amount, expiration).
pub type AllowanceView = (Seq<char>, Seq<char>, u128, Expiration);

/// Where the allowance of `spender` on `owner`'s tokens stands: the last such entry, -1 if none.
pub open spec fn allowance_index(s: Seq<AllowanceView>, owner: Seq<char>, spender: Seq<char>) -> int
    decreases s.len(),
{
    if s.len() == 0 {
        -1
    } else if s.last().0 == owner && s.last().1 == spender {
        s.len() - 1
    } else {
        allowance_index(s.drop_last(), owner, spender)
    }
}

pub proof fn lemma_allowance_index_bounds(s: Seq<AllowanceView>, owner: Seq<char>, spender: Seq<char>)
    ensures
        -1 <= allowance_index(s, owner, spender) < s.len(),
        allowance_index(s, owner, spender) >= 0 ==> s[allowance_index(s, owner, spender)].0 == owner && s[allowance_index(
            s,
            owner,
            spender,
        )].1 == spender,
    decreases s.len(),
{
    if s.len() > 0 {
        lemma_allowance_index_bounds(s.drop_last(), owner, spender);
    }
}

fn find_allowance(s: &Vec<AllowanceEntry>, owner: &String, spender: &String) -> (r: Option<usize>)
    ensures
        match r {
            Some(i) => i == allowance_index(allowances_view(s@), owner@, spender@) && i < s@.len(),
            None => allowance_index(allowances_view(s@), owner@, spender@) == -1,
        },
{
    let ghost v = allowances_view(s@);
    let mut found: Option<usize> = None;
    let mut i: usize = 0;
    while i < s.len()
        invariant
            i <= s@.len(),
            v == allowances_view(s@),
            match found {
                Some(j) => j == allowance_index(v.take(i as int), owner@, spender@) && j < i,
                None => allowance_index(v.take(i as int), owner@, spender@) == -1,
            },
        decreases s@.len() - i,
    {
        assert(v.take(i + 1).drop_last() =~= v.take(i as int));
        if s[i].owner.eq(owner) && s[i].spender.eq(spender) {
            found = Some(i);
        }
        i = i + 1;
    }
    assert(v.take(v.len() as int) =~= v);
    found
}

fn copy_allowances(s: &Vec<AllowanceEntry>) -> (r: Vec<AllowanceEntry>)
    ensures
        r@ == s@,
{
    let mut r: Vec<AllowanceEntry> = Vec::new();
    let mut i: usize = 0;
    while i < s.len()
        invariant
            i <= s@.len(),
            r@ == s@.take(i as int),
        decreases s@.len() - i,
    {
        let a = &s[i];
        r.push(AllowanceEntry { owner: a.owner.clone(), spender: a.spender.clone(), allowance: a.allowance, expires: a.expires });
        assert(r@ =~= s@.take(i + 1));
        i = i + 1;
    }
    assert(s@.take(s@.len() as int) =~= s@);
    r
}

/// The allowances after `spender` was allowed `amount` more of `owner`'s
/// tokens: added to an allowance already there, else a new one that never
/// expires; an error where the sum overflows.
pub open spec fn allowance_granted(s: Seq<AllowanceView>, owner: Seq<char>, spender: Seq<char>, amount: u128) -> Result<
    Seq<AllowanceView>,
    TokenError,
> {
    let k = allowance_index(s, owner, spender);
    if k >= 0 {
        if s[k].2 + amount > u128::MAX {
            Err(TokenError::CannotAdd { balance: s[k].2, amount })
        } else {
            Ok(s.update(k, (s[k].0, s[k].1, (s[k].2 + amount) as u128, s[k].3)))
        }
    } else {
        Ok(s.push((owner, spender, amount, Expiration::Never)))
    }
}

/// One investor's vesting: an allowance on the category, recorded in the
/// investor's schedule; or the error that stops it.
pub open spec fn vest_step(
    st: (Seq<AllowanceView>, Seq<(Seq<char>, VestingView)>),
    i: (Seq<char>, Option<Seq<char>>, u128),
    sender: Seq<char>,
    now: u64,
) -> Result<(Seq<AllowanceView>, Seq<(Seq<char>, VestingView)>), TokenError> {
    if i.2 == 0 {
        Ok(st)
    } else if i.0 == sender {
        Err(TokenError::CannotSetOwnAccount)
    } else {
        match i.1 {
            None => Err(TokenError::InvalidCategory),
            Some(cat) => match allowance_granted(st.0, cat, i.0, i.2) {
                Err(e) => Err(e),
                Ok(a) => match schedule_updated(st.1, i.0, now, None, Some(i.2)) {
                    Err(e) => Err(e),
                    Ok(t) => Ok((a, t)),
                },
            },
        }
    }
}

/// The vestings of a list, one after the other; the first error stops them.
pub open spec fn vestings_applied(
    st: (Seq<AllowanceView>, Seq<(Seq<char>, VestingView)>),
    items: Seq<(Seq<char>, Option<Seq<char>>, u128)>,
    sender: Seq<char>,
    now: u64,
) -> Result<(Seq<AllowanceView>, Seq<(Seq<char>, VestingView)>), TokenError>
    decreases items.len(),
{
    if items.len() == 0 {
        Ok(st)
    } else {
        match vestings_applied(st, items.drop_last(), sender, now) {
            Err(e) => Err(e),
            Ok(s) => vest_step(s, items.last(), sender, now),
        }
    }
}

/// No vesting of the list overflows a schedule.
pub open spec fn vestings_fit(
    st: (Seq<AllowanceView>, Seq<(Seq<char>, VestingView)>),
    items: Seq<(Seq<char>, Option<Seq<char>>, u128)>,
    sender: Seq<char>,
    now: u64,
) -> bool
    decreases items.len(),
{
    if items.len() == 0 {
        true
    } else {
        &&& vestings_fit(st, items.drop_last(), sender, now)
        &&& match vestings_applied(st, items.drop_last(), sender, now) {
            Err(_) => true,
            Ok(s) => schedule_update_fits(s.1, items.last().0, now, None, Some(items.last().2)),
        }
    }
}

pub proof fn lemma_vestings_err_stays(
    st: (Seq<AllowanceView>, Seq<(Seq<char>, VestingView)>),
    items: Seq<(Seq<char>, Option<Seq<char>>, u128)>,
    sender: Seq<char>,
    now: u64,
    k: int,
)
    requires
        0 <= k <= items.len(),
        vestings_applied(st, items.take(k), sender, now) is Err,
    ensures
        vestings_applied(st, items, sender, now) == vestings_applied(st, items.take(k), sender, now),
    decreases items.len(),
{
    if k < items.len() {
        assert(items.drop_last().take(k) =~= items.take(k));
        lemma_vestings_err_stays(st, items.drop_last(), sender, now, k);
    } else {
        assert(items.take(k) =~= items);
    }
}

pub proof fn lemma_vestings_fit_prefix(
    st: (Seq<AllowanceView>, Seq<(Seq<char>, VestingView)>),
    items: Seq<(Seq<char>, Option<Seq<char>>, u128)>,
    sender: Seq<char>,
    now: u64,
    k: int,
)
    requires
        0 <= k <= items.len(),
        vestings_fit(st, items, sender, now),
    ensures
        vestings_fit(st, items.take(k), sender, now),
    decreases items.len(),
{
    if k < items.len() {
        assert(items.drop_last().take(k) =~= items.take(k));
        lemma_vestings_fit_prefix(st, items.drop_last(), sender, now, k);
    } else {
        assert(items.take(k) =~= items);
    }
}

/// Once a list of vestings fails, the vestings after the failure fit.
pub proof fn lemma_vestings_fit_after_err(
    st: (Seq<AllowanceView>, Seq<(Seq<char>, VestingView)>),
    items: Seq<(Seq<char>, Option<Seq<char>>, u128)>,
    sender: Seq<char>,
    now: u64,
    k: int,
)
    requires
        0 <= k <= items.len(),
        vestings_applied(st, items.take(k), sender, now) is Err,
        vestings_fit(st, items.take(k), sender, now),
    ensures
        vestings_fit(st, items, sender, now),
    decreases items.len(),
{
    if k < items.len() {
        assert(items.drop_last().take(k) =~= items.take(k));
        lemma_vestings_fit_after_err(st, items.drop_last(), sender, now, k);
        lemma_vestings_err_stays(st, items.drop_last(), sender, now, k);
    } else {
        assert(items.take(k) =~= items);
    }
}

/// Allows `spender` `amount` more of `owner`'s tokens.
fn grant_allowance(s: &mut Vec<AllowanceEntry>, owner: &String, spender: &String, amount: u128) -> (r: Result<(), TokenError>)
    ensures
        match allowance_granted(allowances_view(old(s)@), owner@, spender@, amount) {
            Ok(a) => r is Ok && allowances_view(final(s)@) == a,
            Err(e) => r == Err::<(), TokenError>(e) && final(s)@ == old(s)@,
        },
{
    proof {
        lemma_allowance_index_bounds(allowances_view(s@), owner@, spender@);
    }
    match find_allowance(s, owner, spender) {
        Some(k) => {
            let cur = s[k].allowance;
            match cur.checked_add(amount) {
                None => Err(TokenError::CannotAdd { balance: cur, amount }),
                Some(n) => {
                    let e = AllowanceEntry { owner: s[k].owner.clone(), spender: s[k].spender.clone(), allowance: n, expires: s[k].expires };
                    let ghost ev = e@;
                    s.set(k, e);
                    assert(allowances_view(s@) =~= allowances_view(old(s)@).update(k as int, ev));
                    Ok(())
                },
            }
        },
        None => {
            let e = AllowanceEntry { owner: owner.clone(), spender: spender.clone(), allowance: amount, expires: Expiration::Never };
            let ghost ev = e@;
            s.push(e);
            assert(allowances_view(s@) =~= allowances_view(old(s)@).push(ev));
            Ok(())
        },
    }
}

impl Token {
    /// The main wallet only: the private sale investors' vested tokens become
    /// allowances on their category's tokens, and are recorded in their schedules.
    pub fn periodically_calculate_vesting(&mut self, sender: &String, now: u64) -> (r: Result<Response, TokenError>)
        requires
            old(self).wf(),
            sender@ == main_wallet() ==> {
                &&& schedule_ready(old(self).vesting@, nitin_wallet(), now)
                &&& schedule_ready(old(self).vesting@, ajay_wallet(), now)
                &&& schedule_ready(old(self).vesting@, sameer_wallet(), now)
                &&& vesting_details_due(old(self).vesting@, now) matches Ok(items) ==> {
                    &&& infos_total(items) <= u128::MAX
                    &&& vestings_fit((allowances_view(old(self).allowances@), old(self).vesting@), items, sender@, now)
                }
            },
        ensures
            final(self).wf(),
            sender@ != main_wallet() ==> r == Err::<Response, TokenError>(TokenError::Unauthorized) && *final(self)
                == *old(self),
            sender@ == main_wallet() ==> match vesting_details_due(old(self).vesting@, now) {
                Err(e) => r == Err::<Response, TokenError>(e) && *final(self) == *old(self),
                Ok(items) => if old(self).balance(main_wallet()) < infos_total(items) {
                    r == Err::<Response, TokenError>(
                        TokenError::CannotSub {
                            balance: old(self).balance(main_wallet()),
                            amount: infos_total(items) as u128,
                        },
                    ) && *final(self) == *old(self)
                } else {
                    match vestings_applied((allowances_view(old(self).allowances@), old(self).vesting@), items, sender@, now) {
                        Err(e) => r == Err::<Response, TokenError>(e) && *final(self) == *old(self),
                        Ok(st) => {
                            &&& r matches Ok(resp) && resp.messages@.len() == 0 && resp.data.is_none() && resp.attrs().len() == 0
                            &&& allowances_view(final(self).allowances@) == st.0
                            &&& final(self).vesting@ == st.1
                            &&& final(self).balances == old(self).balances
                            &&& final(self).token_info == old(self).token_info
                            &&& final(self).marketing == old(self).marketing
                            &&& final(self).logo == old(self).logo
                        },
                    }
                },
            },
    {
        let main = main_wallet_address();
        if !main.eq(sender) {
            return Err(TokenError::Unauthorized);
        }
        let details = match self.populate_vesting_details(now) {
            Err(e) => {
                return Err(e);
            },
            Ok(d) => d,
        };
        let ghost items = infos_view(details@);
        let total = calculate_total_distribution(&details);
        let balance = self.query_balance(&main);
        if balance < total {
            return Err(TokenError::CannotSub { balance, amount: total });
        }
        let ghost st0 = (allowances_view(self.allowances@), self.vesting@);
        let mut allow = copy_allowances(&self.allowances);
        let mut vest = self.vesting.duplicate(|v: &VestingDetails| -> (w: VestingDetails)
            ensures
                w == *v,
            { clone_schedule(v) });
        let mut i: usize = 0;
        while i < details.len()
            invariant
                i <= items.len(),
                items == infos_view(details@),
                vest.wf(),
                vestings_fit(st0, items, sender@, now),
                vestings_applied(st0, items.take(i as int), sender@, now) == Ok::<
                    (Seq<AllowanceView>, Seq<(Seq<char>, VestingView)>),
                    TokenError,
                >((allowances_view(allow@), vest@)),
                *self == *old(self),
                old(self).wf(),
                sender@ == main_wallet(),
                vesting_details_due(old(self).vesting@, now) == Ok::<
                    Seq<(Seq<char>, Option<Seq<char>>, u128)>,
                    TokenError,
                >(items),
                old(self).balance(main_wallet()) >= infos_total(items),
                st0 == (allowances_view(old(self).allowances@), old(self).vesting@),
            decreases items.len() - i,
        {
            proof {
                assert(items.take(i + 1).drop_last() =~= items.take(i as int));
                lemma_vestings_fit_prefix(st0, items, sender@, now, i + 1);
                assert(items[i as int] == details@[i as int]@);
            }
            let amount = details[i].amount;
            if amount > 0 {
                let spender = details[i].spender_address.clone();
                if spender.eq(sender) {
                    proof {
                        lemma_vestings_err_stays(st0, items, sender@, now, i + 1);
                    }
                    return Err(TokenError::CannotSetOwnAccount);
                }
                let category = match &details[i].category_address {
                    None => {
                        proof {
                            lemma_vestings_err_stays(st0, items, sender@, now, i + 1);
                        }
                        return Err(TokenError::InvalidCategory);
                    },
                    Some(c) => c.clone(),
                };
                match grant_allowance(&mut allow, &category, &spender, amount) {
                    Err(e) => {
                        proof {
                            lemma_vestings_err_stays(st0, items, sender@, now, i + 1);
                        }
                        return Err(e);
                    },
                    Ok(()) => {},
                }
                match update_schedule(&mut vest, &spender, now, None, Some(amount)) {
                    Err(e) => {
                        proof {
                            lemma_vestings_err_stays(st0, items, sender@, now, i + 1);
                        }
                        return Err(e);
                    },
                    Ok(()) => {},
                }
            }
            i = i + 1;
        }
        assert(items.take(items.len() as int) =~= items);
        self.allowances = allow;
        self.vesting = vest;
        Ok(Response::empty())
    }
}

impl Token {
    /// Whether the investors' vestings run without overflow or underflow, as
    /// the vestings themselves need.
    pub fn vestings_ready(&self, sender: &String, now: u64) -> (r: bool)
        requires
            self.wf(),
        ensures
            r == (sender@ == main_wallet() ==> {
                &&& schedule_ready(self.vesting@, nitin_wallet(), now)
                &&& schedule_ready(self.vesting@, ajay_wallet(), now)
                &&& schedule_ready(self.vesting@, sameer_wallet(), now)
                &&& vesting_details_due(self.vesting@, now) matches Ok(items) ==> {
                    &&& infos_total(items) <= u128::MAX
                    &&& vestings_fit((allowances_view(self.allowances@), self.vesting@), items, sender@, now)
                }
            }),
    {
        let main = main_wallet_address();
        if !main.eq(sender) {
            return true;
        }
        if !self.schedule_computable(&nitin_address(), now) || !self.schedule_computable(&ajay_address(), now)
            || !self.schedule_computable(&sameer_address(), now) {
            return false;
        }
        let details = match self.populate_vesting_details(now) {
            Err(_) => {
                return true;
            },
            Ok(d) => d,
        };
        let ghost items = infos_view(details@);
        if total_distribution_checked(&details).is_none() {
            return false;
        }
        let ghost st0 = (allowances_view(self.allowances@), self.vesting@);
        let mut allow = copy_allowances(&self.allowances);
        let mut vest = self.vesting.duplicate(|v: &VestingDetails| -> (w: VestingDetails)
            ensures
                w == *v,
            { clone_schedule(v) });
        assert(items.take(0) =~= Seq::<(Seq<char>, Option<Seq<char>>, u128)>::empty());
        let mut i: usize = 0;
        while i < details.len()
            invariant
                i <= items.len(),
                items == infos_view(details@),
                vest.wf(),
                vestings_fit(st0, items.take(i as int), sender@, now),
                vestings_applied(st0, items.take(i as int), sender@, now) == Ok::<
                    (Seq<AllowanceView>, Seq<(Seq<char>, VestingView)>),
                    TokenError,
                >((allowances_view(allow@), vest@)),
                self.wf(),
                sender@ == main_wallet(),
                schedule_ready(self.vesting@, nitin_wallet(), now),
                schedule_ready(self.vesting@, ajay_wallet(), now),
                schedule_ready(self.vesting@, sameer_wallet(), now),
                vesting_details_due(self.vesting@, now) == Ok::<Seq<(Seq<char>, Option<Seq<char>>, u128)>, TokenError>(items),
                infos_total(items) <= u128::MAX,
                st0 == (allowances_view(self.allowances@), self.vesting@),
            decreases items.len() - i,
        {
            proof {
                assert(items.take(i + 1).drop_last() =~= items.take(i as int));
                assert(items[i as int] == details@[i as int]@);
            }
            let amount = details[i].amount;
            let spender = details[i].spender_address.clone();
            if !schedule_update_fits_in(&vest, &spender, now, None, Some(amount)) {
                proof {
                    if vestings_fit(st0, items, sender@, now) {
                        lemma_vestings_fit_prefix(st0, items, sender@, now, i + 1);
                    }
                }
                return false;
            }
            assert(vestings_fit(st0, items.take(i + 1), sender@, now));
            if amount > 0 {
                if spender.eq(sender) {
                    proof {
                        lemma_vestings_fit_after_err(st0, items, sender@, now, i + 1);
                    }
                    return true;
                }
                let category = match &details[i].category_address {
                    None => {
                        proof {
                            lemma_vestings_fit_after_err(st0, items, sender@, now, i + 1);
                        }
                        return true;
                    },
                    Some(c) => c.clone(),
                };
                match grant_allowance(&mut allow, &category, &spender, amount) {
                    Err(_) => {
                        proof {
                            lemma_vestings_fit_after_err(st0, items, sender@, now, i + 1);
                        }
                        return true;
                    },
                    Ok(()) => {},
                }
                match update_schedule(&mut vest, &spender, now, None, Some(amount)) {
                    Err(_) => {
                        proof {
                            lemma_vestings_fit_after_err(st0, items, sender@, now, i + 1);
                        }
                        return true;
                    },
                    Ok(()) => {},
                }
            }
            i = i + 1;
        }
        assert(items.take(items.len() as int) =~= items);
        true
    }
}

/// The first check a claim of vested tokens fails.
pub open spec fn claim_error(tok: Token, sender: Seq<char>, amount: u128, height: u64, now: u64) -> Option<TokenError> {
    let av = allowances_view(tok.allowances@);
    match lookup(tok.vesting@, sender) {
        None => Some(TokenError::NoVestingDetails),
        Some(v) => match v.category_address {
            None => Some(TokenError::NoParentCategory),
            Some(cat) => {
                let k = allowance_index(av, cat, sender);
                if k < 0 {
                    Some(TokenError::NoAllowance)
                } else if expired(av[k].3, height, now) {
                    Some(TokenError::Expired)
                } else if av[k].2 < amount {
                    Some(TokenError::CannotSub { balance: av[k].2, amount })
                } else if balance_of(tok.balances@, cat) < amount {
                    Some(TokenError::CannotSub { balance: balance_of(tok.balances@, cat), amount })
                } else {
                    None
                }
            },
        },
    }
}

impl Token {
    /// Whether a claim of vested tokens runs without overflow or underflow,
    /// as the claim itself needs.
    pub fn claim_ready(&self, sender: &String, amount: u128, height: u64, now: u64) -> (r: bool)
        requires
            self.wf(),
        ensures
            r == (claim_error(*self, sender@, amount, height, now) is None ==> ({
                let v = schedule_of(self.vesting@, sender@);
                &&& move_fits(self.balances@, v.category_address->Some_0, sender@, amount)
                &&& v.total_claimed_tokens_till_now + amount <= u128::MAX
                &&& v.tokens_available_to_claim >= amount
            })),
    {
        let v = match self.vesting.get(sender) {
            None => {
                return true;
            },
            Some(v) => v,
        };
        let category = match &v.category_address {
            None => {
                return true;
            },
            Some(c) => c,
        };
        proof {
            lemma_allowance_index_bounds(allowances_view(self.allowances@), category@, sender@);
        }
        let k = match find_allowance(&self.allowances, category, sender) {
            None => {
                return true;
            },
            Some(k) => k,
        };
        let is_expired = match self.allowances[k].expires {
            Expiration::AtHeight(h) => height >= h,
            Expiration::AtTime(t) => now >= t,
            Expiration::Never => false,
        };
        if is_expired || self.allowances[k].allowance < amount || balance_in(&self.balances, category) < amount {
            return true;
        }
        move_fits_in(&self.balances, category, sender, amount) && v.total_claimed_tokens_till_now.checked_add(amount).is_some()
            && v.tokens_available_to_claim >= amount
    }

    /// An investor claims `amount` of the tokens vested for it: they come off
    /// its allowance and its category's balance, and count as claimed.
    pub fn claim_vested_tokens(&mut self, sender: &String, amount: u128, height: u64, now: u64) -> (r: Result<
        Response,
        TokenError,
    >)
        requires
            old(self).wf(),
            claim_error(*old(self), sender@, amount, height, now) is None ==> ({
                let v = schedule_of(old(self).vesting@, sender@);
                &&& move_fits(old(self).balances@, v.category_address->Some_0, sender@, amount)
                &&& v.total_claimed_tokens_till_now + amount <= u128::MAX
                &&& v.tokens_available_to_claim >= amount
            }),
        ensures
            final(self).wf(),
            claim_error(*old(self), sender@, amount, height, now) matches Some(e) ==> r == Err::<Response, TokenError>(e)
                && *final(self) == *old(self),
            claim_error(*old(self), sender@, amount, height, now) is None ==> ({
                let v = schedule_of(old(self).vesting@, sender@);
                let cat = v.category_address->Some_0;
                let av = allowances_view(old(self).allowances@);
                let k = allowance_index(av, cat, sender@);
                &&& r matches Ok(resp) && resp.messages@.len() == 0 && resp.data.is_none() && resp.attrs() == seq![
                    ("action"@, "transfer_from"@),
                    ("from"@, cat),
                    ("to"@, sender@),
                    ("by"@, sender@),
                    ("amount"@, decimal_text(amount as nat)),
                ]
                &&& allowances_view(final(self).allowances@) == av.update(k, (av[k].0, av[k].1, (av[k].2 - amount) as u128, av[k].3))
                &&& final(self).balances@ == moved(old(self).balances@, cat, sender@, amount)
                &&& final(self).vesting@ == saved(
                    old(self).vesting@,
                    sender@,
                    VestingView {
                        total_claimed_tokens_till_now: (v.total_claimed_tokens_till_now + amount) as u128,
                        tokens_available_to_claim: (v.tokens_available_to_claim - amount) as u128,
                        last_claimed_timestamp: now,
                        ..v
                    },
                )
                &&& final(self).token_info == old(self).token_info
                &&& final(self).marketing == old(self).marketing
                &&& final(self).logo == old(self).logo
            }),
    {
        let v = match self.vesting.get(sender) {
            None => {
                return Err(TokenError::NoVestingDetails);
            },
            Some(v) => clone_schedule(v),
        };
        let category = match &v.category_address {
            None => {
                return Err(TokenError::NoParentCategory);
            },
            Some(c) => c.clone(),
        };
        proof {
            lemma_allowance_index_bounds(allowances_view(self.allowances@), category@, sender@);
        }
        let k = match find_allowance(&self.allowances, &category, sender) {
            None => {
                return Err(TokenError::NoAllowance);
            },
            Some(k) => k,
        };
        let is_expired = match self.allowances[k].expires {
            Expiration::AtHeight(h) => height >= h,
            Expiration::AtTime(t) => now >= t,
            Expiration::Never => false,
        };
        if is_expired {
            return Err(TokenError::Expired);
        }
        let allowed = self.allowances[k].allowance;
        if allowed < amount {
            return Err(TokenError::CannotSub { balance: allowed, amount });
        }
        let have = balance_in(&self.balances, &category);
        if have < amount {
            return Err(TokenError::CannotSub { balance: have, amount });
        }
        let e = AllowanceEntry {
            owner: self.allowances[k].owner.clone(),
            spender: self.allowances[k].spender.clone(),
            allowance: allowed - amount,
            expires: self.allowances[k].expires,
        };
        let ghost ev = e@;
        self.allowances.set(k, e);
        assert(allowances_view(self.allowances@) =~= allowances_view(old(self).allowances@).update(k as int, ev));
        match move_between(&mut self.balances, &category, sender, amount) {
            Err(e) => {
                return Err(e);
            },
            Ok(()) => {},
        }
        let mut u = v;
        u.total_claimed_tokens_till_now = u.total_claimed_tokens_till_now + amount;
        u.tokens_available_to_claim = u.tokens_available_to_claim - amount;
        u.last_claimed_timestamp = now;
        self.vesting.save(sender.clone(), u);
        let mut resp = Response::empty();
        resp.add_attr("action", String::from_str("transfer_from"));
        resp.add_attr("from", category);
        resp.add_attr("to", sender.clone());
        resp.add_attr("by", sender.clone());
        resp.add_attr("amount", decimal(amount));
        assert(resp.attrs() =~= seq![
            ("action"@, "transfer_from"@),
            ("from"@, category@),
            ("to"@, sender@),
            ("by"@, sender@),
            ("amount"@, decimal_text(amount as nat)),
        ]);
        Ok(resp)
    }
}

/// A claim moves tokens from a schedule's available tokens to its claimed
/// ones: their sum, and the schedule's total, stay as they were.
pub proof fn law_claim_keeps_vested_sum(t: Seq<(Seq<char>, VestingView)>, sender: Seq<char>, amount: u128, now: u64)
    requires
        crate::table::sorted_keys(t),
        has_key(t, sender),
        schedule_of(t, sender).tokens_available_to_claim >= amount,
        schedule_of(t, sender).total_claimed_tokens_till_now + amount <= u128::MAX,
    ensures
        ({
            let v = schedule_of(t, sender);
            let after = saved(
                t,
                sender,
                VestingView {
                    total_claimed_tokens_till_now: (v.total_claimed_tokens_till_now + amount) as u128,
                    tokens_available_to_claim: (v.tokens_available_to_claim - amount) as u128,
                    last_claimed_timestamp: now,
                    ..v
                },
            );
            let w = schedule_of(after, sender);
            &&& w.total_claimed_tokens_till_now + w.tokens_available_to_claim == v.total_claimed_tokens_till_now
                + v.tokens_available_to_claim
            &&& w.total_vesting_token_count == v.total_vesting_token_count
        }),
{
    let v = schedule_of(t, sender);
    crate::table::lemma_saved_lookup_same(
        t,
        sender,
        VestingView {
            total_claimed_tokens_till_now: (v.total_claimed_tokens_till_now + amount) as u128,
            tokens_available_to_claim: (v.tokens_available_to_claim - amount) as u128,
            last_claimed_timestamp: now,
            ..v
        },
    );
}

/// A vesting of `amount` moves the schedule's last vesting to now and
/// touches nothing but what is available (and, at the first vesting, the
/// consumed seed). The first vesting, where the last vesting is still the
/// start, makes the initial count available and consumes it; a later one adds
/// to what is available the available tokens and the amount together, capped
/// at what the total leaves after the claimed tokens; so a positive amount
/// that keeps within the total strictly increases what is available.
pub proof fn law_vesting_adds_the_capped_count(v: VestingView, amount: u128, now: u64)
    requires
        vesting_fits(v, amount),
    ensures
        ({
            let w = after_vesting(v, amount, now);
            let first = v.vesting_start_timestamp == v.last_vesting_timestamp;
            let within = v.total_claimed_tokens_till_now + v.tokens_available_to_claim + amount <= v.total_vesting_token_count;
            &&& w == VestingView {
                tokens_available_to_claim: w.tokens_available_to_claim,
                initial_vesting_consumed: w.initial_vesting_consumed,
                last_vesting_timestamp: now,
                ..v
            }
            &&& first ==> w.tokens_available_to_claim == v.initial_vesting_count && w.initial_vesting_consumed
                == v.initial_vesting_count
            &&& !first ==> w.initial_vesting_consumed == v.initial_vesting_consumed
            &&& !first && within ==> w.tokens_available_to_claim == v.tokens_available_to_claim + (v.tokens_available_to_claim
                + amount)
            &&& !first && !within ==> w.tokens_available_to_claim == v.tokens_available_to_claim + (v.total_vesting_token_count
                - v.total_claimed_tokens_till_now)
            &&& !first && within && amount > 0 ==> w.tokens_available_to_claim > v.tokens_available_to_claim
        }),
{
}

} // verus!
