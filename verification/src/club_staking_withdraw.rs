//! Withdrawal of stake from a club: at once (taking matured bonds first,
//! then pending bonds, then the stake itself, with a tenth of what does not
//! come from matured bonds burnt), or into a bond that matures later.
use vstd::prelude::*;
use vstd::string::StringExecFns;
use crate::club_staking::{
    ClubBondingDetails, ClubError, ClubStaking, FeeKind, NANOS_PER_SECOND, PoolAsset, bonds_of, clone_bond,
    can_subtract_seconds, clone_bonds, fee_percentages_fit, funds_of, minus_seconds, minus_seconds_ok, minus_seconds_spec, platform_fee_spec,
    pool_view, staking_saved, uusd_sent, uusd_sum_checked, uusd_total,
};
use crate::response::{Coin, Msg, Response, TokenCall, decimal, decimal_text, transferred_note, transferred_text};
use crate::table::{has_key, saved};
use crate::amounts::mul_or_zero;

verus! {

/// The second of a bond's start.
pub open spec fn bond_secs(b: ClubBondingDetails) -> u64 {
    b.bonding_start_timestamp / NANOS_PER_SECOND
}

/// Where a bond goes in a list ordered by descending start second: after
/// every bond that started in the same second or later.
pub open spec fn desc_pos(s: Seq<ClubBondingDetails>, b: ClubBondingDetails) -> int
    decreases s.len(),
{
    if s.len() == 0 {
        0
    } else if bond_secs(s.last()) >= bond_secs(b) {
        s.len() as int
    } else {
        desc_pos(s.drop_last(), b)
    }
}

/// The bonds ordered by descending start second; bonds of the same second keep their order.
pub open spec fn sort_bonds_desc(s: Seq<ClubBondingDetails>) -> Seq<ClubBondingDetails>
    decreases s.len(),
{
    if s.len() == 0 {
        s
    } else {
        let r = sort_bonds_desc(s.drop_last());
        r.insert(desc_pos(r, s.last()), s.last())
    }
}

pub proof fn lemma_desc_pos_bounds(s: Seq<ClubBondingDetails>, b: ClubBondingDetails)
    ensures
        0 <= desc_pos(s, b) <= s.len(),
    decreases s.len(),
{
    if s.len() > 0 {
        lemma_desc_pos_bounds(s.drop_last(), b);
    }
}

pub proof fn lemma_sort_len(s: Seq<ClubBondingDetails>)
    ensures
        sort_bonds_desc(s).len() == s.len(),
    decreases s.len(),
{
    if s.len() > 0 {
        lemma_sort_len(s.drop_last());
        lemma_desc_pos_bounds(sort_bonds_desc(s.drop_last()), s.last());
    }
}

/// Orders bonds by descending start second, keeping the order of bonds of the same second.
pub fn sort_bonds(l: &Vec<ClubBondingDetails>) -> (r: Vec<ClubBondingDetails>)
    ensures
        r@ == sort_bonds_desc(l@),
{
    let mut r: Vec<ClubBondingDetails> = Vec::new();
    let mut i: usize = 0;
    while i < l.len()
        invariant
            i <= l@.len(),
            r@ == sort_bonds_desc(l@.take(i as int)),
        decreases l@.len() - i,
    {
        let b = clone_bond(&l[i]);
        let secs = b.bonding_start_timestamp / NANOS_PER_SECOND;
        let ghost r0 = r@;
        proof {
            lemma_sort_len(l@.take(i as int));
        }
        let mut p: usize = r.len();
        assert(r0.take(p as int) =~= r0);
        while p > 0 && r[p - 1].bonding_start_timestamp / NANOS_PER_SECOND < secs
            invariant
                p <= r0.len(),
                r@ == r0,
                secs == bond_secs(b),
                desc_pos(r0, b) == desc_pos(r0.take(p as int), b),
            decreases p,
        {
            assert(r0.take(p as int).drop_last() =~= r0.take(p - 1));
            p = p - 1;
        }
        proof {
            if p > 0 {
                assert(r0.take(p as int).last() == r0[p - 1]);
            }
            assert(desc_pos(r0, b) == p);
            assert(l@.take(i + 1).drop_last() =~= l@.take(i as int));
        }
        r.insert(p, b);
        i = i + 1;
    }
    assert(l@.take(l@.len() as int) =~= l@);
    r
}

/// A bond whose bonding period was over before `now`.
pub open spec fn matured(b: ClubBondingDetails, now: u64) -> bool {
    b.bonding_start_timestamp < minus_seconds_spec(now, b.bonding_duration)
}

/// One bond consumed against what remains to withdraw: (remaining, taken, kept bonds).
/// A bond larger than what remains is cut down and kept, and `taken` becomes
/// what remained; a smaller bond is used up and added to `taken`.
pub open spec fn consume_step(st: (u128, u128, Seq<ClubBondingDetails>), b: ClubBondingDetails) -> (u128, u128, Seq<ClubBondingDetails>) {
    if st.0 > 0 {
        if b.bonded_amount > st.0 {
            (0, st.0, st.2.push(ClubBondingDetails { bonded_amount: (b.bonded_amount - st.0) as u128, ..b }))
        } else {
            ((st.0 - b.bonded_amount) as u128, (st.1 + b.bonded_amount) as u128, st.2)
        }
    } else {
        (st.0, st.1, st.2.push(b))
    }
}

/// The first pass over the ordered bonds: matured bonds of `staker` are
/// consumed, their pending bonds set aside, others kept.
/// (remaining, taken, kept, pending)
pub open spec fn first_pass(s: Seq<ClubBondingDetails>, staker: Seq<char>, now: u64, amount: u128) -> (u128, u128, Seq<ClubBondingDetails>, Seq<ClubBondingDetails>)
    decreases s.len(),
{
    if s.len() == 0 {
        (amount, 0, Seq::empty(), Seq::empty())
    } else {
        let p = first_pass(s.drop_last(), staker, now, amount);
        let b = s.last();
        if b.bonder_address@ == staker {
            if matured(b, now) {
                let c = consume_step((p.0, p.1, p.2), b);
                (c.0, c.1, c.2, p.3)
            } else {
                (p.0, p.1, p.2, p.3.push(b))
            }
        } else {
            (p.0, p.1, p.2.push(b), p.3)
        }
    }
}

/// The second pass: the pending bonds are consumed in order. (remaining, taken, kept)
pub open spec fn second_pass(s: Seq<ClubBondingDetails>, remaining: u128) -> (u128, u128, Seq<ClubBondingDetails>)
    decreases s.len(),
{
    if s.len() == 0 {
        (remaining, 0, Seq::empty())
    } else {
        consume_step(second_pass(s.drop_last(), remaining), s.last())
    }
}

/// Every bond of `staker` can be measured against `now`.
pub open spec fn staker_bonds_measurable(l: Seq<ClubBondingDetails>, staker: Seq<char>, now: u64) -> bool {
    forall|i: int| 0 <= i < l.len() && #[trigger] l[i].bonder_address@ == staker ==> minus_seconds_ok(now, l[i].bonding_duration)
}

/// What an immediate withdrawal does to a club's bonds:
/// (bonds kept, taken from matured bonds, taken from pending bonds).
pub open spec fn immediate_withdrawal(l: Seq<ClubBondingDetails>, staker: Seq<char>, now: u64, amount: u128) -> (Seq<ClubBondingDetails>, u128, u128) {
    let p = first_pass(sort_bonds_desc(l), staker, now, amount);
    let q = second_pass(p.3, p.0);
    (p.2 + q.2, p.1, q.1)
}

/// The part of a withdrawal that is burnt: a tenth of what does not come from matured bonds.
pub open spec fn burn_amount(amount: u128, unbonded: u128) -> u128 {
    if amount > unbonded {
        (mul_or_zero((amount - unbonded) as u128, 10) / 100) as u128
    } else {
        0
    }
}

pub proof fn lemma_first_pass_bound(s: Seq<ClubBondingDetails>, staker: Seq<char>, now: u64, amount: u128)
    ensures
        first_pass(s, staker, now, amount).0 + first_pass(s, staker, now, amount).1 <= amount,
    decreases s.len(),
{
    if s.len() > 0 {
        lemma_first_pass_bound(s.drop_last(), staker, now, amount);
    }
}

pub proof fn lemma_second_pass_bound(s: Seq<ClubBondingDetails>, remaining: u128)
    ensures
        second_pass(s, remaining).0 + second_pass(s, remaining).1 <= remaining,
    decreases s.len(),
{
    if s.len() > 0 {
        lemma_second_pass_bound(s.drop_last(), remaining);
    }
}

/// The two parts taken from bonds never exceed the withdrawal.
pub proof fn lemma_withdrawal_parts(l: Seq<ClubBondingDetails>, staker: Seq<char>, now: u64, amount: u128)
    ensures
        immediate_withdrawal(l, staker, now, amount).1 + immediate_withdrawal(l, staker, now, amount).2 <= amount,
{
    let p = first_pass(sort_bonds_desc(l), staker, now, amount);
    lemma_first_pass_bound(sort_bonds_desc(l), staker, now, amount);
    lemma_second_pass_bound(p.3, p.0);
}

fn consume(remaining: &mut u128, taken: &mut u128, kept: &mut Vec<ClubBondingDetails>, b: ClubBondingDetails, Ghost(cap): Ghost<u128>)
    requires
        *old(remaining) + *old(taken) <= cap,
    ensures
        (*final(remaining), *final(taken), final(kept)@) == consume_step((*old(remaining), *old(taken), old(kept)@), b),
        *final(remaining) + *final(taken) <= cap,
{
    if *remaining > 0 {
        if b.bonded_amount > *remaining {
            let rem = *remaining;
            *taken = rem;
            let mut u = b;
            u.bonded_amount = u.bonded_amount - rem;
            kept.push(u);
            *remaining = 0;
        } else {
            *taken = *taken + b.bonded_amount;
            *remaining = *remaining - b.bonded_amount;
        }
    } else {
        kept.push(b);
    }
}

/// Carries out the bond passes of an immediate withdrawal.
pub fn withdraw_from_bonds(l: &Vec<ClubBondingDetails>, staker: &String, now: u64, amount: u128) -> (r: (Vec<ClubBondingDetails>, u128, u128))
    requires
        staker_bonds_measurable(l@, staker@, now),
    ensures
        (r.0@, r.1, r.2) == immediate_withdrawal(l@, staker@, now, amount),
{
    let sorted = sort_bonds(l);
    proof {
        lemma_sort_permutes_measurable(l@, staker@, now);
    }
    let mut remaining: u128 = amount;
    let mut unbonded: u128 = 0;
    let mut kept: Vec<ClubBondingDetails> = Vec::new();
    let mut pending: Vec<ClubBondingDetails> = Vec::new();
    let mut i: usize = 0;
    while i < sorted.len()
        invariant
            i <= sorted@.len(),
            staker_bonds_measurable(sorted@, staker@, now),
            (remaining, unbonded, kept@, pending@) == first_pass(sorted@.take(i as int), staker@, now, amount),
        decreases sorted@.len() - i,
    {
        proof {
            assert(sorted@.take(i + 1).drop_last() =~= sorted@.take(i as int));
            lemma_first_pass_bound(sorted@.take(i as int), staker@, now, amount);
        }
        let b = clone_bond(&sorted[i]);
        if b.bonder_address.eq(staker) {
            if b.bonding_start_timestamp < minus_seconds(now, b.bonding_duration) {
                consume(&mut remaining, &mut unbonded, &mut kept, b, Ghost(amount));
            } else {
                pending.push(b);
            }
        } else {
            kept.push(b);
        }
        i = i + 1;
    }
    assert(sorted@.take(sorted@.len() as int) =~= sorted@);
    let start = remaining;
    let mut bonded: u128 = 0;
    let mut kept2: Vec<ClubBondingDetails> = Vec::new();
    let mut j: usize = 0;
    while j < pending.len()
        invariant
            j <= pending@.len(),
            (remaining, bonded, kept2@) == second_pass(pending@.take(j as int), start),
        decreases pending@.len() - j,
    {
        proof {
            assert(pending@.take(j + 1).drop_last() =~= pending@.take(j as int));
            lemma_second_pass_bound(pending@.take(j as int), start);
        }
        let b = clone_bond(&pending[j]);
        consume(&mut remaining, &mut bonded, &mut kept2, b, Ghost(start));
        j = j + 1;
    }
    assert(pending@.take(pending@.len() as int) =~= pending@);
    let mut all = kept;
    let mut k: usize = 0;
    let ghost k1 = all@;
    while k < kept2.len()
        invariant
            k <= kept2@.len(),
            all@ == k1 + kept2@.take(k as int),
        decreases kept2@.len() - k,
    {
        all.push(clone_bond(&kept2[k]));
        assert(all@ =~= k1 + kept2@.take(k + 1));
        k = k + 1;
    }
    assert(kept2@.take(kept2@.len() as int) =~= kept2@);
    (all, unbonded, bonded)
}

/// Sorting keeps the bonds, so every bond of the staker stays measurable.
pub proof fn lemma_sort_permutes_measurable(l: Seq<ClubBondingDetails>, staker: Seq<char>, now: u64)
    requires
        staker_bonds_measurable(l, staker, now),
    ensures
        staker_bonds_measurable(sort_bonds_desc(l), staker, now),
    decreases l.len(),
{
    if l.len() > 0 {
        let d = l.drop_last();
        assert(staker_bonds_measurable(d, staker, now)) by {
            assert forall|i: int| 0 <= i < d.len() && #[trigger] d[i].bonder_address@ == staker implies minus_seconds_ok(
                now,
                d[i].bonding_duration,
            ) by {
                assert(d[i] == l[i]);
            }
        }
        lemma_sort_permutes_measurable(d, staker, now);
        let r = sort_bonds_desc(d);
        let p = desc_pos(r, l.last());
        lemma_desc_pos_bounds(r, l.last());
        let t = r.insert(p, l.last());
        assert forall|i: int| 0 <= i < t.len() && #[trigger] t[i].bonder_address@ == staker implies minus_seconds_ok(
            now,
            t[i].bonding_duration,
        ) by {
            if i < p {
                assert(t[i] == r[i]);
            } else if i == p {
                assert(t[i] == l[l.len() - 1]);
            } else {
                assert(t[i] == r[i - 1]);
            }
        }
    }
}


/// The senders whose withdrawals owe no platform fee.
pub open spec fn withdraw_fee_exempt(sender: Seq<char>) -> bool {
    sender == "Staker001"@ || sender == "Staker002"@
}

/// The response of an immediate withdrawal of `amount` of which `burn` is burnt:
/// the burn (where there is one), the transfer of the rest to the staker, and
/// the native coins sent along passed on to the platform fee wallet.
pub open spec fn withdraw_response(resp: Response, token: String, staker: String, wallet: String, funds: Vec<Coin>, amount: u128, burn: u128) -> bool {
    let tail = seq![
        Msg::Token { contract: token, call: TokenCall::Transfer { recipient: staker, amount: (amount - burn) as u128 } },
        Msg::Bank { to_address: wallet, coins: funds },
    ];
    let attrs = seq![("action"@, "withdraw_stake"@), ("withdrawn"@, decimal_text(amount as nat))];
    &&& resp.messages@ == if burn > 0 {
        seq![Msg::Token { contract: token, call: TokenCall::Burn { amount: burn } }] + tail
    } else {
        tail
    }
    &&& resp.attrs() == if burn > 0 {
        seq![("burnt"@, decimal_text(burn as nat))] + attrs
    } else {
        attrs
    }
    &&& resp.data_text() == Some(transferred_note(amount))
}

impl ClubStaking {
    /// The platform fee a withdrawal owes: none for the exempt senders.
    pub open spec fn withdraw_fee(&self, sender: Seq<char>, amount: u128, pool: Option<Seq<PoolAsset>>) -> Result<u128, ClubError> {
        if withdraw_fee_exempt(sender) {
            Ok(0)
        } else {
            platform_fee_spec(self.config, FeeKind::StakeWithdrawFromAClub { amount }, pool)
        }
    }

    /// The first check a withdrawal fails before any stake is touched.
    pub open spec fn withdraw_error(&self, sender: Seq<char>, staker: Seq<char>, funds: Seq<Coin>, club_name: Seq<char>, amount: u128, pool: Option<Seq<PoolAsset>>) -> Option<ClubError> {
        let fee = self.withdraw_fee(sender, amount, pool);
        if staker != sender {
            Some(ClubError::Unauthorized)
        } else if fee is Err {
            Some(fee->Err_0)
        } else if uusd_total(funds) < fee->Ok_0 {
            Some(ClubError::InsufficientFees { required: fee->Ok_0, received: uusd_total(funds) as u128 })
        } else if !has_key(self.ownerships@, club_name) {
            Some(ClubError::InvalidClub)
        } else {
            None
        }
    }

    /// The withdrawal runs without arithmetic overflow: the fee sums fit, the
    /// coins sent along can be summed, and an immediate withdrawal takes no
    /// more than the staker's funds and can measure the staker's bonds.
    pub open spec fn withdraw_panic_free(&self, sender: Seq<char>, staker: Seq<char>, funds: Seq<Coin>, club_name: Seq<char>, amount: u128, immediate: bool, now: u64, pool: Option<Seq<PoolAsset>>) -> bool {
        &&& (staker == sender && !withdraw_fee_exempt(sender)) ==> fee_percentages_fit(self.config, FeeKind::StakeWithdrawFromAClub { amount })
        &&& (staker == sender && self.withdraw_fee(sender, amount, pool) is Ok) ==> uusd_total(funds) <= u128::MAX
        &&& (self.withdraw_error(sender, staker, funds, club_name, amount, pool).is_none() && immediate) ==> {
            &&& amount <= funds_of(self.staking_funds@, staker)
            &&& staker_bonds_measurable(bonds_of(self.bonds@, club_name), staker, now)
        }
    }

    /// Whether a withdrawal runs without arithmetic overflow, as the
    /// withdrawal itself needs.
    pub fn withdraw_ready(
        &self,
        sender: &String,
        staker: &String,
        funds: &Vec<Coin>,
        club_name: &String,
        amount: u128,
        immediate: bool,
        now: u64,
        pool: &Option<Vec<PoolAsset>>,
    ) -> (r: bool)
        requires
            self.wf(),
        ensures
            r == self.withdraw_panic_free(sender@, staker@, funds@, club_name@, amount, immediate, now, pool_view(*pool)),
    {
        if !staker.eq(sender) {
            return true;
        }
        let exempt1 = String::from_str("Staker001");
        let exempt2 = String::from_str("Staker002");
        let fee = if sender.eq(&exempt1) || sender.eq(&exempt2) {
            Ok(0)
        } else {
            if self.config.platform_fees.checked_add(self.config.transaction_fees).is_none() {
                return false;
            }
            self.query_platform_fees(&FeeKind::StakeWithdrawFromAClub { amount }, pool)
        };
        assert(fee == self.withdraw_fee(sender@, amount, pool_view(*pool)));
        let required = match fee {
            Err(_) => {
                return true;
            },
            Ok(x) => x,
        };
        let sent = match uusd_sum_checked(funds) {
            None => {
                return false;
            },
            Some(x) => x,
        };
        if sent < required || !self.ownerships.contains(club_name) || !immediate {
            return true;
        }
        let balance = match self.staking_funds.get(staker) {
            Some(b) => *b,
            None => 0,
        };
        if amount > balance {
            return false;
        }
        let ghost l = bonds_of(self.bonds@, club_name@);
        let ghost ready = self.withdraw_panic_free(sender@, staker@, funds@, club_name@, amount, immediate, now, pool_view(*pool));
        assert(ready == staker_bonds_measurable(l, staker@, now));
        match self.bonds.get(club_name) {
            None => {
                return true;
            },
            Some(bonds) => {
                let mut i: usize = 0;
                while i < bonds.len()
                    invariant
                        i <= bonds@.len(),
                        bonds@ == l,
                        ready == staker_bonds_measurable(l, staker@, now),
                        ready == self.withdraw_panic_free(sender@, staker@, funds@, club_name@, amount, immediate, now, pool_view(*pool)),
                        forall|k: int| 0 <= k < i && #[trigger] l[k].bonder_address@ == staker@ ==> minus_seconds_ok(now, l[k].bonding_duration),
                    decreases bonds@.len() - i,
                {
                    if bonds[i].bonder_address.eq(staker) && !can_subtract_seconds(now, bonds[i].bonding_duration) {
                        assert(l[i as int].bonder_address@ == staker@);
                        assert(!minus_seconds_ok(now, l[i as int].bonding_duration));
                        return false;
                    }
                    i = i + 1;
                }
                true
            },
        }
    }

    /// Config, reward and ownerships are as before.
    pub open spec fn same_but_holdings(&self, o: &Self) -> bool {
        &&& self.config == o.config
        &&& self.club_reward_next_timestamp == o.club_reward_next_timestamp
        &&& self.reward == o.reward
        &&& self.ownerships == o.ownerships
        &&& self.previous_owners == o.previous_owners
    }

    /// The staker withdraws `amount` of stake from an owned club. At once: the
    /// amount comes off the staker's funds, off the staker's matured bonds
    /// (newest first), then off the pending ones, and the rest off the stake;
    /// a tenth of what did not come from matured bonds is burnt and the rest
    /// is sent to the staker. Otherwise: the amount comes off the stake and
    /// goes into a new bond of the configured duration.
    pub fn withdraw_stake_from_a_club(
        &mut self,
        sender: &String,
        funds: Vec<Coin>,
        staker: String,
        club_name: String,
        amount: u128,
        immediate: bool,
        now: u64,
        pool: &Option<Vec<PoolAsset>>,
    ) -> (r: Result<Response, ClubError>)
        requires
            old(self).wf(),
            old(self).withdraw_panic_free(sender@, staker@, funds@, club_name@, amount, immediate, now, pool_view(*pool)),
        ensures
            final(self).wf(),
            old(self).withdraw_error(sender@, staker@, funds@, club_name@, amount, pool_view(*pool)) matches Some(e)
                ==> r == Err::<Response, ClubError>(e) && *final(self) == *old(self),
            old(self).withdraw_error(sender@, staker@, funds@, club_name@, amount, pool_view(*pool)).is_none() && immediate ==> ({
                let w = immediate_withdrawal(bonds_of(old(self).bonds@, club_name@), staker@, now, amount);
                let rest = (amount - w.1 - w.2) as u128;
                match staking_saved(old(self).stakes@, staker, club_name, rest, false, now) {
                    None => r == Err::<Response, ClubError>(ClubError::ExcessWithdrawal) && *final(self) == *old(self),
                    Some(t) => {
                        &&& r matches Ok(resp) && withdraw_response(
                            resp,
                            old(self).config.minting_contract_address,
                            staker,
                            old(self).config.platform_fees_collector_wallet,
                            funds,
                            amount,
                            burn_amount(amount, w.1),
                        )
                        &&& final(self).same_but_holdings(old(self))
                        &&& final(self).stakes@ == t
                        &&& final(self).bonds@ == saved(old(self).bonds@, club_name@, w.0)
                        &&& final(self).staking_funds@ == saved(
                            old(self).staking_funds@,
                            staker@,
                            (funds_of(old(self).staking_funds@, staker@) - amount) as u128,
                        )
                    },
                }
            }),
            old(self).withdraw_error(sender@, staker@, funds@, club_name@, amount, pool_view(*pool)).is_none() && !immediate ==> ({
                match staking_saved(old(self).stakes@, staker, club_name, amount, false, now) {
                    None => r == Err::<Response, ClubError>(ClubError::ExcessWithdrawal) && *final(self) == *old(self),
                    Some(t) => {
                        &&& r matches Ok(resp) && resp.messages@.len() == 0 && resp.attrs().len() == 0 && resp.data.is_none()
                        &&& final(self).same_but_holdings(old(self))
                        &&& final(self).stakes@ == t
                        &&& final(self).staking_funds == old(self).staking_funds
                        &&& final(self).bonds@ == saved(
                            old(self).bonds@,
                            club_name@,
                            bonds_of(old(self).bonds@, club_name@).push(ClubBondingDetails {
                                bonder_address: staker,
                                bonding_start_timestamp: now,
                                bonded_amount: amount,
                                bonding_duration: old(self).config.bonding_duration,
                                club_name,
                            }),
                        )
                    },
                }
            }),
    {
        if !staker.eq(sender) {
            return Err(ClubError::Unauthorized);
        }
        let exempt1 = String::from_str("Staker001");
        let exempt2 = String::from_str("Staker002");
        let required = if sender.eq(&exempt1) || sender.eq(&exempt2) {
            0
        } else {
            match self.query_platform_fees(&FeeKind::StakeWithdrawFromAClub { amount }, pool) {
                Err(e) => {
                    return Err(e);
                },
                Ok(x) => x,
            }
        };
        let fees = uusd_sent(&funds);
        if fees < required {
            return Err(ClubError::InsufficientFees { required, received: fees });
        }
        if !self.ownerships.contains(&club_name) {
            return Err(ClubError::InvalidClub);
        }
        if !immediate {
            let bonder = staker.clone();
            let bond_club = club_name.clone();
            match self.save_staking_details(staker, club_name, amount, false, now) {
                Err(e) => {
                    return Err(e);
                },
                Ok(()) => {},
            }
            let duration = self.config.bonding_duration;
            self.save_bonding_details(bonder, bond_club, amount, duration, now);
            return Ok(Response::empty());
        }
        let bonds = match self.bonds.get(&club_name) {
            Some(l) => clone_bonds(l),
            None => Vec::new(),
        };
        assert(bonds@ =~= bonds_of(self.bonds@, club_name@));
        let (kept, unbonded, bonded) = withdraw_from_bonds(&bonds, &staker, now, amount);
        proof {
            lemma_withdrawal_parts(bonds@, staker@, now, amount);
        }
        let rest = amount - unbonded - bonded;
        match self.save_staking_details(staker.clone(), club_name.clone(), rest, false, now) {
            Err(e) => {
                return Err(e);
            },
            Ok(()) => {},
        }
        let balance = match self.staking_funds.get(&staker) {
            Some(b) => *b,
            None => 0,
        };
        self.staking_funds.save(staker.clone(), balance - amount);
        self.bonds.save(club_name, kept);
        let burn = if amount > unbonded {
            match (amount - unbonded).checked_mul(10) {
                Some(x) => x / 100,
                None => 0,
            }
        } else {
            0
        };
        let mut resp = Response::empty();
        let token = self.config.minting_contract_address.clone();
        if burn > 0 {
            resp.add_msg(Msg::Token { contract: token.clone(), call: TokenCall::Burn { amount: burn } });
            resp.add_attr("burnt", decimal(burn));
        }
        let ghost m0 = resp.messages@;
        let ghost a0 = resp.attrs();
        resp.add_msg(Msg::Token { contract: token, call: TokenCall::Transfer { recipient: staker, amount: amount - burn } });
        resp.add_msg(Msg::Bank { to_address: self.config.platform_fees_collector_wallet.clone(), coins: funds });
        resp.add_attr("action", String::from_str("withdraw_stake"));
        resp.add_attr("withdrawn", decimal(amount));
        resp.data = Some(transferred_text(amount));
        assert(resp.messages@ =~= m0 + seq![
            Msg::Token { contract: old(self).config.minting_contract_address, call: TokenCall::Transfer { recipient: staker, amount: (amount - burn) as u128 } },
            Msg::Bank { to_address: old(self).config.platform_fees_collector_wallet, coins: funds },
        ]);
        assert(resp.attrs() =~= a0 + seq![("action"@, "withdraw_stake"@), ("withdrawn"@, decimal_text(amount as nat))]);
        assert(burn == burn_amount(amount, unbonded));
        proof {
            let tail = seq![
                Msg::Token { contract: old(self).config.minting_contract_address, call: TokenCall::Transfer { recipient: staker, amount: (amount - burn) as u128 } },
                Msg::Bank { to_address: old(self).config.platform_fees_collector_wallet, coins: funds },
            ];
            let attrs = seq![("action"@, "withdraw_stake"@), ("withdrawn"@, decimal_text(amount as nat))];
            if burn > 0 {
                assert(m0 =~= seq![Msg::Token { contract: old(self).config.minting_contract_address, call: TokenCall::Burn { amount: burn } }]);
                assert(a0 =~= seq![("burnt"@, decimal_text(burn as nat))]);
            } else {
                assert(m0 + tail =~= tail);
                assert(a0 + attrs =~= attrs);
            }
        }
        assert(withdraw_response(
            resp,
            old(self).config.minting_contract_address,
            staker,
            old(self).config.platform_fees_collector_wallet,
            funds,
            amount,
            burn,
        ));
        Ok(resp)
    }
}

} // verus!
