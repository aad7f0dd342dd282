//! The periodic reward of club staking: clubs ranked by their staked totals,
//! a share for the stakers of the top club, a share for all stakers, and the
//! rest for the top club's owner.
use vstd::prelude::*;
use vstd::string::StringExecFns;
use crate::amounts::{checked_mul_or_zero, mul_or_zero};
use crate::club_staking::{
    ClubError, ClubOwnershipDetails, ClubStaking, ClubStakingDetails, NANOS_PER_SECOND, clone_ownership, clone_stake,
    clone_stakes, plus_seconds, stakes_of,
};
use crate::response::Response;
use crate::table::{Table, key_lt, lookup, saved, sorted_keys};

verus! {

/// The staked total of a stake list.
pub open spec fn staked_total(l: Seq<ClubStakingDetails>) -> nat
    decreases l.len(),
{
    if l.len() == 0 {
        0
    } else {
        staked_total(l.drop_last()) + l.last().staked_amount as nat
    }
}

pub proof fn lemma_staked_total_prefix(l: Seq<ClubStakingDetails>, j: int)
    requires
        0 <= j <= l.len(),
    ensures
        staked_total(l.take(j)) <= staked_total(l),
    decreases l.len(),
{
    if j < l.len() {
        assert(l.drop_last().take(j) =~= l.take(j));
        lemma_staked_total_prefix(l.drop_last(), j);
    } else {
        assert(l.take(j) =~= l);
    }
}

/// Sums the staked amounts of a list.
pub fn stake_sum(l: &Vec<ClubStakingDetails>) -> (r: u128)
    requires
        staked_total(l@) <= u128::MAX,
    ensures
        r == staked_total(l@),
{
    let mut sum: u128 = 0;
    let mut j: usize = 0;
    while j < l.len()
        invariant
            j <= l@.len(),
            staked_total(l@) <= u128::MAX,
            sum == staked_total(l@.take(j as int)),
        decreases l@.len() - j,
    {
        proof {
            assert(l@.take(j + 1).drop_last() =~= l@.take(j as int));
            lemma_staked_total_prefix(l@, j + 1);
        }
        sum = sum + l[j].staked_amount;
        j = j + 1;
    }
    assert(l@.take(l@.len() as int) =~= l@);
    sum
}

/// All stakes, club by club in key order.
pub open spec fn all_stakes(t: Seq<(Seq<char>, Seq<ClubStakingDetails>)>) -> Seq<ClubStakingDetails>
    decreases t.len(),
{
    if t.len() == 0 {
        Seq::empty()
    } else {
        all_stakes(t.drop_last()) + t.last().1
    }
}

impl ClubStaking {
    /// All stakes, club by club in key order.
    pub fn query_all_stakes(&self) -> (r: Vec<ClubStakingDetails>)
        ensures
            r@ == all_stakes(self.stakes@),
    {
        stakes_in_order(&self.stakes)
    }
}

fn stakes_in_order(t: &Table<Vec<ClubStakingDetails>>) -> (r: Vec<ClubStakingDetails>)
    ensures
        r@ == all_stakes(t@),
{
    let mut r: Vec<ClubStakingDetails> = Vec::new();
    let mut i: usize = 0;
    while i < t.len()
        invariant
            i <= t@.len(),
            r@ == all_stakes(t@.take(i as int)),
        decreases t@.len() - i,
    {
        let l = t.val_at(i);
        let ghost r0 = r@;
        let mut j: usize = 0;
        while j < l.len()
            invariant
                j <= l@.len(),
                r@ == r0 + l@.take(j as int),
            decreases l@.len() - j,
        {
            r.push(clone_stake(&l[j]));
            assert(r@ =~= r0 + l@.take(j + 1));
            j = j + 1;
        }
        assert(l@.take(l@.len() as int) =~= l@);
        assert(t@.take(i + 1).drop_last() =~= t@.take(i as int));
        i = i + 1;
    }
    assert(t@.take(t@.len() as int) =~= t@);
    r
}

/// Each club's stake list can be ranked: it is not empty and its total fits an amount.
pub open spec fn rankable(t: Seq<(Seq<char>, Seq<ClubStakingDetails>)>) -> bool {
    forall|i: int| #![auto] 0 <= i < t.len() ==> t[i].1.len() > 0 && staked_total(t[i].1) <= u128::MAX
}

/// A club's ranking entry: the club named by its first stake, with the staked total.
pub open spec fn ranking_entry(l: Seq<ClubStakingDetails>) -> (String, u128) {
    (l[0].club_name, staked_total(l) as u128)
}

/// The clubs' ranking entries in key order.
pub open spec fn club_totals(t: Seq<(Seq<char>, Seq<ClubStakingDetails>)>) -> Seq<(String, u128)> {
    t.map_values(|e: (Seq<char>, Seq<ClubStakingDetails>)| ranking_entry(e.1))
}

/// Where an entry goes in a list ranked by descending total: after every
/// entry with the same total or more.
pub open spec fn rank_pos(s: Seq<(String, u128)>, e: (String, u128)) -> int
    decreases s.len(),
{
    if s.len() == 0 {
        0
    } else if s.last().1 >= e.1 {
        s.len() as int
    } else {
        rank_pos(s.drop_last(), e)
    }
}

/// Entries ranked by descending total; entries of the same total keep their order.
pub open spec fn rank_desc(s: Seq<(String, u128)>) -> Seq<(String, u128)>
    decreases s.len(),
{
    if s.len() == 0 {
        s
    } else {
        let r = rank_desc(s.drop_last());
        r.insert(rank_pos(r, s.last()), s.last())
    }
}

pub proof fn lemma_rank_pos_bounds(s: Seq<(String, u128)>, e: (String, u128))
    ensures
        0 <= rank_pos(s, e) <= s.len(),
    decreases s.len(),
{
    if s.len() > 0 {
        lemma_rank_pos_bounds(s.drop_last(), e);
    }
}

pub proof fn lemma_rank_len(s: Seq<(String, u128)>)
    ensures
        rank_desc(s).len() == s.len(),
    decreases s.len(),
{
    if s.len() > 0 {
        lemma_rank_len(s.drop_last());
        lemma_rank_pos_bounds(rank_desc(s.drop_last()), s.last());
    }
}

/// Ranks entries by descending total, keeping the order of equal totals.
pub fn rank_entries(l: &Vec<(String, u128)>) -> (r: Vec<(String, u128)>)
    ensures
        r@ == rank_desc(l@),
{
    let mut r: Vec<(String, u128)> = Vec::new();
    let mut i: usize = 0;
    while i < l.len()
        invariant
            i <= l@.len(),
            r@ == rank_desc(l@.take(i as int)),
        decreases l@.len() - i,
    {
        let e = (l[i].0.clone(), l[i].1);
        let ghost r0 = r@;
        proof {
            lemma_rank_len(l@.take(i as int));
        }
        let mut p: usize = r.len();
        assert(r0.take(p as int) =~= r0);
        while p > 0 && r[p - 1].1 < e.1
            invariant
                p <= r0.len(),
                r@ == r0,
                rank_pos(r0, e) == rank_pos(r0.take(p as int), e),
            decreases p,
        {
            assert(r0.take(p as int).drop_last() =~= r0.take(p - 1));
            p = p - 1;
        }
        proof {
            if p > 0 {
                assert(r0.take(p as int).last() == r0[p - 1]);
            }
            assert(rank_pos(r0, e) == p);
            assert(l@.take(i + 1).drop_last() =~= l@.take(i as int));
            assert(l@.take(i + 1).last() == e);
        }
        r.insert(p, e);
        i = i + 1;
    }
    assert(l@.take(l@.len() as int) =~= l@);
    r
}

impl ClubStaking {
    /// The clubs with their staked totals, ranked by descending total; each
    /// club is named by its first stake.
    pub fn get_clubs_ranking_by_stakes(&self) -> (r: Vec<(String, u128)>)
        requires
            rankable(self.stakes@),
        ensures
            r@ == rank_desc(club_totals(self.stakes@)),
    {
        let mut entries: Vec<(String, u128)> = Vec::new();
        let mut i: usize = 0;
        while i < self.stakes.len()
            invariant
                i <= self.stakes@.len(),
                rankable(self.stakes@),
                entries@ == club_totals(self.stakes@).take(i as int),
            decreases self.stakes@.len() - i,
        {
            let l = self.stakes.val_at(i);
            let sum = stake_sum(l);
            entries.push((l[0].club_name.clone(), sum));
            assert(entries@ =~= club_totals(self.stakes@).take(i + 1));
            i = i + 1;
        }
        assert(entries@ =~= club_totals(self.stakes@));
        rank_entries(&entries)
    }
}


/// A stake's part of a pot, pro rata to its stake in `total`; none where `total` is 0.
pub open spec fn share(pot: u128, staked: u128, total: u128) -> nat {
    if total == 0 {
        0
    } else {
        (mul_or_zero(pot, staked) / total) as nat
    }
}

/// A stake with its part of a pot added to its reward.
pub open spec fn credited(s: ClubStakingDetails, pot: u128, total: u128) -> ClubStakingDetails {
    ClubStakingDetails { reward_amount: (s.reward_amount + share(pot, s.staked_amount, total)) as u128, ..s }
}

/// Every stake of a list credited with its part of a pot.
pub open spec fn credit(l: Seq<ClubStakingDetails>, pot: u128, total: u128) -> Seq<ClubStakingDetails> {
    l.map_values(|s: ClubStakingDetails| credited(s, pot, total))
}

/// The parts of a pot that the stakes of a list receive.
pub open spec fn credit_sum(l: Seq<ClubStakingDetails>, pot: u128, total: u128) -> nat
    decreases l.len(),
{
    if l.len() == 0 {
        0
    } else {
        credit_sum(l.drop_last(), pot, total) + share(pot, l.last().staked_amount, total)
    }
}

/// No stake's reward overflows when its part of a pot is added.
pub open spec fn credit_fits(l: Seq<ClubStakingDetails>, pot: u128, total: u128) -> bool {
    forall|i: int| 0 <= i < l.len() ==> #[trigger] l[i].reward_amount + share(pot, l[i].staked_amount, total) <= u128::MAX
}

/// Every stake of every club credited with its part of a pot.
pub open spec fn credit_every_club(t: Seq<(Seq<char>, Seq<ClubStakingDetails>)>, pot: u128, total: u128) -> Seq<(Seq<char>, Seq<ClubStakingDetails>)> {
    t.map_values(|e: (Seq<char>, Seq<ClubStakingDetails>)| (e.0, credit(e.1, pot, total)))
}

/// No stake of any club overflows when credited.
pub open spec fn every_club_fits(t: Seq<(Seq<char>, Seq<ClubStakingDetails>)>, pot: u128, total: u128) -> bool {
    forall|i: int| 0 <= i < t.len() ==> credit_fits(#[trigger] t[i].1, pot, total)
}

pub proof fn lemma_credit_sum_prefix(l: Seq<ClubStakingDetails>, pot: u128, total: u128, j: int)
    requires
        0 <= j <= l.len(),
    ensures
        credit_sum(l.take(j), pot, total) <= credit_sum(l, pot, total),
    decreases l.len(),
{
    if j < l.len() {
        assert(l.drop_last().take(j) =~= l.take(j));
        lemma_credit_sum_prefix(l.drop_last(), pot, total, j);
    } else {
        assert(l.take(j) =~= l);
    }
}

pub proof fn lemma_credit_sum_append(a: Seq<ClubStakingDetails>, b: Seq<ClubStakingDetails>, pot: u128, total: u128)
    ensures
        credit_sum(a + b, pot, total) == credit_sum(a, pot, total) + credit_sum(b, pot, total),
    decreases b.len(),
{
    if b.len() == 0 {
        assert(a + b =~= a);
    } else {
        assert((a + b).drop_last() =~= a + b.drop_last());
        lemma_credit_sum_append(a, b.drop_last(), pot, total);
    }
}

pub proof fn lemma_credit_sum_all_prefix(t: Seq<(Seq<char>, Seq<ClubStakingDetails>)>, pot: u128, total: u128, k: int)
    requires
        0 <= k <= t.len(),
    ensures
        credit_sum(all_stakes(t.take(k)), pot, total) <= credit_sum(all_stakes(t), pot, total),
    decreases t.len(),
{
    if k < t.len() {
        assert(t.drop_last().take(k) =~= t.take(k));
        lemma_credit_sum_all_prefix(t.drop_last(), pot, total, k);
        lemma_credit_sum_append(all_stakes(t.drop_last()), t.last().1, pot, total);
    } else {
        assert(t.take(k) =~= t);
    }
}

/// A stake's part of a pot, as the contract computes it.
fn share_of(pot: u128, staked: u128, total: u128) -> (r: u128)
    ensures
        r == share(pot, staked, total),
{
    if total == 0 {
        0
    } else {
        checked_mul_or_zero(pot, staked) / total
    }
}

/// Credits every stake of a list with its part of a pot; returns the
/// credited list and what was handed out.
fn credit_stakes(l: &Vec<ClubStakingDetails>, pot: u128, total: u128) -> (r: (Vec<ClubStakingDetails>, u128))
    requires
        credit_fits(l@, pot, total),
        credit_sum(l@, pot, total) <= u128::MAX,
    ensures
        r.0@ == credit(l@, pot, total),
        r.1 == credit_sum(l@, pot, total),
{
    let mut out: Vec<ClubStakingDetails> = Vec::new();
    let mut given: u128 = 0;
    let mut j: usize = 0;
    while j < l.len()
        invariant
            j <= l@.len(),
            credit_fits(l@, pot, total),
            credit_sum(l@, pot, total) <= u128::MAX,
            out@ == credit(l@.take(j as int), pot, total),
            given == credit_sum(l@.take(j as int), pot, total),
        decreases l@.len() - j,
    {
        proof {
            assert(l@.take(j + 1).drop_last() =~= l@.take(j as int));
            lemma_credit_sum_prefix(l@, pot, total, j + 1);
        }
        let mut u = clone_stake(&l[j]);
        let part = share_of(pot, u.staked_amount, total);
        assert(l@[j as int].reward_amount + share(pot, l@[j as int].staked_amount, total) <= u128::MAX);
        u.reward_amount = u.reward_amount + part;
        given = given + part;
        out.push(u);
        assert(out@ =~= credit(l@.take(j + 1), pot, total));
        j = j + 1;
    }
    assert(l@.take(l@.len() as int) =~= l@);
    (out, given)
}

/// Credits every stake of every club with its part of a pot; returns what was handed out.
fn credit_all_clubs(t: &mut Table<Vec<ClubStakingDetails>>, pot: u128, total: u128) -> (given: u128)
    requires
        old(t).wf(),
        every_club_fits(old(t)@, pot, total),
        credit_sum(all_stakes(old(t)@), pot, total) <= u128::MAX,
    ensures
        final(t).wf(),
        final(t)@ == credit_every_club(old(t)@, pot, total),
        given == credit_sum(all_stakes(old(t)@), pot, total),
{
    let ghost t0 = t@;
    let mut given: u128 = 0;
    let mut i: usize = 0;
    while i < t.len()
        invariant
            i <= t0.len(),
            t@.len() == t0.len(),
            sorted_keys(t@),
            every_club_fits(t0, pot, total),
            credit_sum(all_stakes(t0), pot, total) <= u128::MAX,
            forall|k: int| 0 <= k < t0.len() ==> #[trigger] t@[k].0 == t0[k].0,
            forall|k: int| 0 <= k < i ==> #[trigger] t@[k] == credit_every_club(t0, pot, total)[k],
            forall|k: int| i <= k < t0.len() ==> #[trigger] t@[k] == t0[k],
            given == credit_sum(all_stakes(t0.take(i as int)), pot, total),
        decreases t0.len() - i,
    {
        proof {
            assert(t0.take(i + 1).drop_last() =~= t0.take(i as int));
            lemma_credit_sum_append(all_stakes(t0.take(i as int)), t0[i as int].1, pot, total);
            lemma_credit_sum_all_prefix(t0, pot, total, i + 1);
            assert(credit_fits(t0[i as int].1, pot, total));
        }
        let l = clone_stakes(t.val_at(i));
        let (c, g) = credit_stakes(&l, pot, total);
        let ghost before = t@;
        t.set_val_at(i, c);
        given = given + g;
        proof {
            assert forall|a: int, b: int| 0 <= a < b < t@.len() implies key_lt(#[trigger] t@[a].0, #[trigger] t@[b].0) by {
                assert(t@[a].0 == before[a].0);
                assert(t@[b].0 == before[b].0);
            }
        }
        i = i + 1;
    }
    assert(t0.take(t0.len() as int) =~= t0);
    assert(t@ =~= credit_every_club(t0, pot, total));
    given
}

/// Sums the staked amounts of a list; none where the sum does not fit.
fn stake_sum_checked(l: &Vec<ClubStakingDetails>) -> (r: Option<u128>)
    ensures
        match r {
            Some(x) => x == staked_total(l@),
            None => staked_total(l@) > u128::MAX,
        },
{
    let mut sum: u128 = 0;
    let mut j: usize = 0;
    while j < l.len()
        invariant
            j <= l@.len(),
            sum == staked_total(l@.take(j as int)),
        decreases l@.len() - j,
    {
        proof {
            assert(l@.take(j + 1).drop_last() =~= l@.take(j as int));
            lemma_staked_total_prefix(l@, j + 1);
        }
        match sum.checked_add(l[j].staked_amount) {
            Some(x) => {
                sum = x;
            },
            None => {
                return None;
            },
        }
        j = j + 1;
    }
    assert(l@.take(l@.len() as int) =~= l@);
    Some(sum)
}

/// What the stakes of a list receive of a pot, where no credit overflows and
/// the parts add up to an amount; none otherwise.
fn credit_checked(l: &Vec<ClubStakingDetails>, pot: u128, total: u128) -> (r: Option<u128>)
    ensures
        match r {
            Some(g) => credit_fits(l@, pot, total) && g == credit_sum(l@, pot, total),
            None => !(credit_fits(l@, pot, total) && credit_sum(l@, pot, total) <= u128::MAX),
        },
{
    let mut given: u128 = 0;
    let mut j: usize = 0;
    while j < l.len()
        invariant
            j <= l@.len(),
            forall|k: int| 0 <= k < j ==> #[trigger] l@[k].reward_amount + share(pot, l@[k].staked_amount, total) <= u128::MAX,
            given == credit_sum(l@.take(j as int), pot, total),
        decreases l@.len() - j,
    {
        proof {
            assert(l@.take(j + 1).drop_last() =~= l@.take(j as int));
            lemma_credit_sum_prefix(l@, pot, total, j + 1);
        }
        let part = share_of(pot, l[j].staked_amount, total);
        if l[j].reward_amount.checked_add(part).is_none() {
            assert(!credit_fits(l@, pot, total)) by {
                assert(l@[j as int].reward_amount + share(pot, l@[j as int].staked_amount, total) > u128::MAX);
            }
            return None;
        }
        match given.checked_add(part) {
            Some(x) => {
                given = x;
            },
            None => {
                return None;
            },
        }
        j = j + 1;
    }
    assert(l@.take(l@.len() as int) =~= l@);
    Some(given)
}

/// What every stake of every club receives of a pot, where no credit
/// overflows and the parts add up to an amount; none otherwise.
fn credit_all_checked(t: &Table<Vec<ClubStakingDetails>>, pot: u128, total: u128) -> (r: Option<u128>)
    ensures
        match r {
            Some(g) => every_club_fits(t@, pot, total) && g == credit_sum(all_stakes(t@), pot, total),
            None => !(every_club_fits(t@, pot, total) && credit_sum(all_stakes(t@), pot, total) <= u128::MAX),
        },
{
    let ghost t0 = t@;
    let mut given: u128 = 0;
    let mut i: usize = 0;
    while i < t.len()
        invariant
            i <= t0.len(),
            t0 == t@,
            forall|k: int| 0 <= k < i ==> credit_fits(#[trigger] t0[k].1, pot, total),
            given == credit_sum(all_stakes(t0.take(i as int)), pot, total),
        decreases t0.len() - i,
    {
        proof {
            assert(t0.take(i + 1).drop_last() =~= t0.take(i as int));
            lemma_credit_sum_append(all_stakes(t0.take(i as int)), t0[i as int].1, pot, total);
            lemma_credit_sum_all_prefix(t0, pot, total, i + 1);
        }
        match credit_checked(t.val_at(i), pot, total) {
            None => {
                return None;
            },
            Some(g) => match given.checked_add(g) {
                Some(x) => {
                    given = x;
                },
                None => {
                    return None;
                },
            },
        }
        i = i + 1;
    }
    assert(t0.take(t0.len() as int) =~= t0);
    Some(given)
}

/// Whether each club's stake list can be ranked.
pub fn stakes_rankable_in(t: &Table<Vec<ClubStakingDetails>>) -> (r: bool)
    ensures
        r == rankable(t@),
{
    let mut i: usize = 0;
    while i < t.len()
        invariant
            i <= t@.len(),
            forall|k: int| #![auto] 0 <= k < i ==> t@[k].1.len() > 0 && staked_total(t@[k].1) <= u128::MAX,
        decreases t@.len() - i,
    {
        let l = t.val_at(i);
        if l.len() == 0 {
            assert(!rankable(t@)) by {
                assert(t@[i as int].1.len() == 0);
            }
            return false;
        }
        if stake_sum_checked(l).is_none() {
            assert(!rankable(t@)) by {
                assert(staked_total(t@[i as int].1) > u128::MAX);
            }
            return false;
        }
        i = i + 1;
    }
    true
}

impl ClubStaking {
    /// Whether each club's stake list can be ranked, as the ranking needs.
    pub fn stakes_rankable(&self) -> (r: bool)
        ensures
            r == rankable(self.stakes@),
    {
        stakes_rankable_in(&self.stakes)
    }
}

/// The next reward time from `t`: moved on by `step` until it is no longer before `now`.
pub open spec fn reward_time_after(t: int, now: int, step: int) -> int
    decreases (if t < now { now - t } else { 0 }),
{
    if step <= 0 || t >= now {
        t
    } else {
        reward_time_after(t + step, now, step)
    }
}

pub proof fn lemma_reward_time_after_grows(t: int, now: int, step: int)
    ensures
        reward_time_after(t, now, step) >= t,
    decreases (if t < now { now - t } else { 0 }),
{
    if step > 0 && t < now {
        lemma_reward_time_after_grows(t + step, now, step);
    }
}

/// The top club's stakers' pot: 19% of the reward (none where that overflows).
pub open spec fn top_pot(reward: u128) -> u128 {
    (mul_or_zero(reward, 19) / 100) as u128
}

/// All stakers' pot: 80% of the reward (none where that overflows).
pub open spec fn all_pot(reward: u128) -> u128 {
    (mul_or_zero(reward, 80) / 100) as u128
}

/// The top of the ranking: the club with the most stake, the first in key order among equals.
pub open spec fn top_club(t: Seq<(Seq<char>, Seq<ClubStakingDetails>)>) -> (String, u128) {
    rank_desc(club_totals(t))[0]
}

/// The stakes after the top club's stakers got their part of the top pot.
pub open spec fn after_top_pot(t: Seq<(Seq<char>, Seq<ClubStakingDetails>)>, reward: u128) -> Seq<(Seq<char>, Seq<ClubStakingDetails>)> {
    let top = top_club(t);
    saved(t, top.0@, credit(stakes_of(t, top.0@), top_pot(reward), top.1))
}

/// Everything staked, after the top pot.
pub open spec fn grand_total(t: Seq<(Seq<char>, Seq<ClubStakingDetails>)>, reward: u128) -> nat {
    staked_total(all_stakes(after_top_pot(t, reward)))
}

/// The stakes after both pots were handed out.
pub open spec fn after_all_pots(t: Seq<(Seq<char>, Seq<ClubStakingDetails>)>, reward: u128) -> Seq<(Seq<char>, Seq<ClubStakingDetails>)> {
    credit_every_club(after_top_pot(t, reward), all_pot(reward), grand_total(t, reward) as u128)
}

/// What the stakers receive in all.
pub open spec fn handed_out(t: Seq<(Seq<char>, Seq<ClubStakingDetails>)>, reward: u128) -> nat {
    let top = top_club(t);
    credit_sum(stakes_of(t, top.0@), top_pot(reward), top.1) + credit_sum(
        all_stakes(after_top_pot(t, reward)),
        all_pot(reward),
        grand_total(t, reward) as u128,
    )
}

impl ClubStaking {
    /// The reward period in nanoseconds.
    pub open spec fn reward_step(&self) -> int {
        self.config.reward_periodicity * NANOS_PER_SECOND
    }

    /// The distribution runs without overflow, and the reward loop ends: a
    /// reward time in the past needs a reward period; the ranking needs
    /// non-empty stake lists; stakes, sums and the owner's reward fit.
    pub open spec fn distribute_panic_free(&self, now: u64) -> bool {
        let t = self.stakes@;
        let top = top_club(t);
        &&& self.club_reward_next_timestamp < now ==> {
            &&& self.config.reward_periodicity > 0
            &&& reward_time_after(self.club_reward_next_timestamp as int, now as int, self.reward_step()) <= u64::MAX
        }
        &&& self.reward > 0 ==> rankable(t)
        &&& (self.reward > 0 && t.len() > 0) ==> match lookup(self.ownerships@, top.0@) {
            None => true,
            Some(od) => {
                &&& credit_fits(stakes_of(t, top.0@), top_pot(self.reward), top.1)
                &&& grand_total(t, self.reward) <= u128::MAX
                &&& every_club_fits(after_top_pot(t, self.reward), all_pot(self.reward), grand_total(t, self.reward) as u128)
                &&& handed_out(t, self.reward) <= self.reward
                &&& od.reward_amount + (self.reward - handed_out(t, self.reward)) <= u128::MAX
            },
        }
    }

    /// Admin only, once the reward time has come: moves the reward time on by
    /// whole periods past now, and hands out the accumulated reward: 19% to
    /// the stakers of the club with the most stake, 80% to all stakers, each
    /// pro rata to its stake, and the rest to that club's owner.
    pub fn calculate_and_distribute_rewards(&mut self, sender: &String, now: u64) -> (r: Result<Response, ClubError>)
        requires
            old(self).wf(),
            old(self).is_admin(sender@) && old(self).club_reward_next_timestamp <= now ==> old(self).distribute_panic_free(now),
        ensures
            final(self).wf(),
            !old(self).is_admin(sender@) ==> r == Err::<Response, ClubError>(ClubError::NotAuthorised) && *final(self) == *old(self),
            old(self).is_admin(sender@) && now < old(self).club_reward_next_timestamp
                ==> r == Err::<Response, ClubError>(ClubError::RewardTimeNotArrived) && *final(self) == *old(self),
            old(self).is_admin(sender@) && old(self).club_reward_next_timestamp <= now ==> ({
                let t = old(self).stakes@;
                let next = reward_time_after(old(self).club_reward_next_timestamp as int, now as int, old(self).reward_step()) as u64;
                let top = top_club(t);
                if old(self).reward == 0 {
                    &&& r matches Ok(resp) && resp.messages@.len() == 0 && resp.data.is_none()
                        && resp.attrs() == seq![("response"@, "no accumulated rewards"@)]
                    &&& *final(self) == (ClubStaking { club_reward_next_timestamp: next, ..*old(self) })
                } else if t.len() == 0 {
                    &&& r matches Ok(resp) && resp.messages@.len() == 0 && resp.attrs().len() == 0 && resp.data.is_none()
                    &&& *final(self) == (ClubStaking { club_reward_next_timestamp: next, ..*old(self) })
                } else {
                    match lookup(old(self).ownerships@, top.0@) {
                        None => r == Err::<Response, ClubError>(ClubError::NoOwnershipDetails) && *final(self) == *old(self),
                        Some(od) => {
                            &&& r matches Ok(resp) && resp.messages@.len() == 0 && resp.attrs().len() == 0 && resp.data.is_none()
                            &&& final(self).config == old(self).config
                            &&& final(self).club_reward_next_timestamp == next
                            &&& final(self).reward == 0
                            &&& final(self).stakes@ == after_all_pots(t, old(self).reward)
                            &&& final(self).ownerships@ == saved(
                                old(self).ownerships@,
                                od.club_name@,
                                ClubOwnershipDetails {
                                    reward_amount: (od.reward_amount + (old(self).reward - handed_out(t, old(self).reward))) as u128,
                                    ..od
                                },
                            )
                            &&& final(self).previous_owners == old(self).previous_owners
                            &&& final(self).bonds == old(self).bonds
                            &&& final(self).staking_funds == old(self).staking_funds
                        },
                    }
                }
            }),
    {
        if !self.config.admin_address.eq(sender) {
            return Err(ClubError::NotAuthorised);
        }
        let mut next = self.club_reward_next_timestamp;
        if now < next {
            return Err(ClubError::RewardTimeNotArrived);
        }
        let period = self.config.reward_periodicity;
        let ghost step = self.reward_step();
        let ghost target = reward_time_after(next as int, now as int, step);
        proof {
            lemma_reward_time_after_grows(next as int, now as int, step);
        }
        while next < now
            invariant
                next <= target,
                target == reward_time_after(next as int, now as int, step),
                step == period * NANOS_PER_SECOND,
                next < now ==> period > 0 && target <= u64::MAX,
            decreases target - next,
        {
            proof {
                lemma_reward_time_after_grows(next + step, now as int, step);
            }
            next = plus_seconds(next, period);
        }
        let total = self.reward;
        if total == 0 {
            self.club_reward_next_timestamp = next;
            let mut resp = Response::empty();
            resp.add_attr("response", String::from_str("no accumulated rewards"));
            return Ok(resp);
        }
        let ranking = self.get_clubs_ranking_by_stakes();
        proof {
            lemma_rank_len(club_totals(self.stakes@));
        }
        if ranking.len() == 0 {
            self.club_reward_next_timestamp = next;
            return Ok(Response::empty());
        }
        let top_name = ranking[0].0.clone();
        let top_total = ranking[0].1;
        let od = match self.ownerships.get(&top_name) {
            None => {
                return Err(ClubError::NoOwnershipDetails);
            },
            Some(o) => clone_ownership(o),
        };
        self.club_reward_next_timestamp = next;
        let ghost t = self.stakes@;
        let top_share = checked_mul_or_zero(total, 19) / 100;
        let listed = match self.stakes.get(&top_name) {
            Some(l) => clone_stakes(l),
            None => Vec::new(),
        };
        assert(listed@ =~= stakes_of(t, top_name@));
        proof {
            lemma_credit_sum_prefix(listed@, top_share, top_total, 0);
        }
        let (credited_top, given_top) = credit_stakes(&listed, top_share, top_total);
        self.stakes.save(top_name, credited_top);
        assert(self.stakes@ == after_top_pot(t, total));
        let everything = stakes_in_order(&self.stakes);
        let grand = stake_sum(&everything);
        let all_share = checked_mul_or_zero(total, 80) / 100;
        let given_all = credit_all_clubs(&mut self.stakes, all_share, grand);
        let owner_part = total - (given_top + given_all);
        let mut owner = od;
        owner.reward_amount = owner.reward_amount + owner_part;
        self.ownerships.save(owner.club_name.clone(), owner);
        self.reward = 0;
        Ok(Response::empty())
    }
}

/// Whether the reward time `next` can be moved on by `period` seconds until it
/// is no longer before `now`.
fn reward_time_fits(next: u64, now: u64, period: u64) -> (r: bool)
    ensures
        r == (next < now ==> period > 0 && reward_time_after(next as int, now as int, period * NANOS_PER_SECOND) <= u64::MAX),
{
    if now <= next {
        return true;
    }
    if period == 0 {
        return false;
    }
    let ghost step = period * NANOS_PER_SECOND;
    let step_nanos = match period.checked_mul(1_000_000_000) {
        Some(x) => x,
        None => {
            proof {
                lemma_reward_time_after_grows(next + step, now as int, step);
            }
            return false;
        },
    };
    let mut t = next;
    while t < now
        invariant
            next < now,
            period > 0,
            step == period * NANOS_PER_SECOND,
            step == step_nanos,
            step > 0,
            reward_time_after(next as int, now as int, step) == reward_time_after(t as int, now as int, step),
        decreases (if t < now { now - t } else { 0 }),
    {
        match t.checked_add(step_nanos) {
            Some(x) => {
                t = x;
            },
            None => {
                proof {
                    lemma_reward_time_after_grows(t + step, now as int, step);
                }
                return false;
            },
        }
    }
    true
}

impl ClubStaking {
    /// Whether a distribution runs without overflow and its reward loop ends,
    /// as the distribution itself needs.
    pub fn distribution_ready(&self, sender: &String, now: u64) -> (r: bool)
        requires
            self.wf(),
        ensures
            r == (self.is_admin(sender@) && self.club_reward_next_timestamp <= now ==> self.distribute_panic_free(now)),
    {
        if !self.config.admin_address.eq(sender) || now < self.club_reward_next_timestamp {
            return true;
        }
        if !reward_time_fits(self.club_reward_next_timestamp, now, self.config.reward_periodicity) {
            return false;
        }
        let reward = self.reward;
        if reward == 0 {
            return true;
        }
        let ghost t = self.stakes@;
        if !stakes_rankable_in(&self.stakes) {
            return false;
        }
        if self.stakes.len() == 0 {
            return true;
        }
        let ranking = self.get_clubs_ranking_by_stakes();
        proof {
            lemma_rank_len(club_totals(t));
        }
        let top_name = ranking[0].0.clone();
        let top_total = ranking[0].1;
        let od_reward = match self.ownerships.get(&top_name) {
            None => {
                return true;
            },
            Some(o) => o.reward_amount,
        };
        let top_share = checked_mul_or_zero(reward, 19) / 100;
        let listed = match self.stakes.get(&top_name) {
            Some(l) => clone_stakes(l),
            None => Vec::new(),
        };
        assert(listed@ =~= stakes_of(t, top_name@));
        let given_top = match credit_checked(&listed, top_share, top_total) {
            None => {
                return false;
            },
            Some(g) => g,
        };
        let (credited_top, _) = credit_stakes(&listed, top_share, top_total);
        let mut after = self.stakes.duplicate(|l: &Vec<ClubStakingDetails>| -> (c: Vec<ClubStakingDetails>)
            ensures
                c@ == l@,
            { clone_stakes(l) });
        after.save(top_name, credited_top);
        assert(after@ == after_top_pot(t, reward));
        let everything = stakes_in_order(&after);
        let grand = match stake_sum_checked(&everything) {
            None => {
                return false;
            },
            Some(x) => x,
        };
        let all_share = checked_mul_or_zero(reward, 80) / 100;
        let given_all = match credit_all_checked(&after, all_share, grand) {
            None => {
                return false;
            },
            Some(g) => g,
        };
        match given_top.checked_add(given_all) {
            None => false,
            Some(h) => h <= reward && od_reward.checked_add(reward - h).is_some(),
        }
    }
}

/// The command carried by tokens sent to the contract: add them to the reward pot.
pub struct IncreaseRewardAmountCommand {
    pub reward_from: String,
}

/// What tokens sent to the contract are for.
pub enum ReceivedMsg {
    IncreaseRewardAmount(IncreaseRewardAmountCommand),
}

impl ClubStaking {
    /// Tokens received from the token contract on behalf of `token_sender`,
    /// with the command that came along.
    pub fn received_message(&mut self, sender: &String, amount: u128, msg: ReceivedMsg) -> (r: Result<Response, ClubError>)
        requires
            old(self).config.minting_contract_address@ == sender@ ==> old(self).reward + amount <= u128::MAX,
        ensures
            old(self).config.minting_contract_address@ != sender@ ==> r == Err::<Response, ClubError>(ClubError::Unauthorized)
                && *final(self) == *old(self),
            old(self).config.minting_contract_address@ == sender@ ==> (r matches Ok(resp) && resp.messages@.len() == 0
                && resp.attrs().len() == 0 && resp.data.is_none() && final(self).reward == old(self).reward + amount
                && final(self).same_but_reward(old(self))),
    {
        match msg {
            ReceivedMsg::IncreaseRewardAmount(c) => self.increase_reward_amount(sender, c.reward_from, amount),
        }
    }
}

} // verus!
