//! Properties of club staking that span several calls or hold of every
//! reward distribution.
use vstd::prelude::*;
use crate::amounts::mul_or_zero;
use crate::club_staking::{ClubBondingDetails, ClubStakingDetails, bonds_refunded, new_stake, pending_bonds, rewards_collected, stake_fold, stake_increase_fits, staker_rewards, stakes_of, staking_saved};
use crate::club_staking_withdraw::{burn_amount, immediate_withdrawal, lemma_withdrawal_parts};
use crate::club_staking_rewards::{
    after_all_pots, after_top_pot, credit, credit_every_club, credit_fits, every_club_fits, all_pot, all_stakes,
    club_totals, credit_sum, grand_total, handed_out, lemma_credit_sum_append, lemma_rank_len, lemma_rank_pos_bounds,
    rank_desc, rank_pos, rankable, share, staked_total, top_club, top_pot,
};
use crate::table::{
    has_key, insert_pos, key_pos, lemma_insert_pos_exists, lemma_key_pos_unique, lemma_saved_lookup_same, lemma_saved_sorted, lookup, saved,
    sorted_keys,
};

verus! {

/// Every stake recorded under a club names that club.
pub open spec fn stakes_named(t: Seq<(Seq<char>, Seq<ClubStakingDetails>)>) -> bool {
    forall|i: int, j: int| 0 <= i < t.len() && 0 <= j < t[i].1.len() ==> #[trigger] t[i].1[j].club_name@ == t[i].0
}

/// Every entry of a ranking comes from the ranked entries.
pub proof fn lemma_rank_desc_members(s: Seq<(String, u128)>, i: int)
    requires
        0 <= i < rank_desc(s).len(),
    ensures
        exists|j: int| 0 <= j < s.len() && #[trigger] s[j] == rank_desc(s)[i],
    decreases s.len(),
{
    let d = s.drop_last();
    let r = rank_desc(d);
    let p = rank_pos(r, s.last());
    lemma_rank_len(d);
    lemma_rank_pos_bounds(r, s.last());
    if i < p {
        lemma_rank_desc_members(d, i);
        let j = choose|j: int| 0 <= j < d.len() && #[trigger] d[j] == r[i];
        assert(s[j] == rank_desc(s)[i]);
    } else if i == p {
        assert(s[s.len() - 1] == rank_desc(s)[i]);
    } else {
        lemma_rank_desc_members(d, i - 1);
        let j = choose|j: int| 0 <= j < d.len() && #[trigger] d[j] == r[i - 1];
        assert(s[j] == rank_desc(s)[i]);
    }
}

/// Each share times the total is at most the pot times the stake, so the
/// shares of a list, times the total, are at most the pot times its stakes.
pub proof fn lemma_credit_sum_scaled(l: Seq<ClubStakingDetails>, pot: u128, total: u128)
    requires
        total > 0,
    ensures
        credit_sum(l, pot, total) * total <= pot * staked_total(l),
    decreases l.len(),
{
    if l.len() > 0 {
        let d = l.drop_last();
        lemma_credit_sum_scaled(d, pot, total);
        let s = l.last().staked_amount;
        let m = mul_or_zero(pot, s) as int;
        let b = share(pot, s, total) as int;
        assert(b * total <= m) by (nonlinear_arith)
            requires
                b == m / (total as int),
                total > 0,
                m >= 0,
        ;
        assert(m <= pot * s);
        let a = credit_sum(d, pot, total) as int;
        let st = staked_total(d) as int;
        assert((a + b) * total == a * total + b * total) by (nonlinear_arith);
        assert(pot * (st + s) == pot * st + pot * s) by (nonlinear_arith);
        assert(credit_sum(l, pot, total) == a + b);
        assert(staked_total(l) == st + s);
        assert(a * total <= pot * st);
        assert(credit_sum(l, pot, total) * total == (a + b) * total);
        assert(pot * staked_total(l) == pot * (st + s));
        assert(credit_sum(l, pot, total) * total <= pot * staked_total(l));
    } else {
        assert(credit_sum(l, pot, total) == 0);
        assert(staked_total(l) == 0);
        assert(credit_sum(l, pot, total) * total <= pot * staked_total(l)) by (nonlinear_arith)
            requires
                credit_sum(l, pot, total) == 0,
                staked_total(l) == 0,
        ;
    }
}

/// Shares of a pot taken pro rata over a list's own total never exceed the pot.
pub proof fn lemma_credit_within_pot(l: Seq<ClubStakingDetails>, pot: u128)
    requires
        staked_total(l) <= u128::MAX,
    ensures
        credit_sum(l, pot, staked_total(l) as u128) <= pot,
{
    let t = staked_total(l) as u128;
    if t > 0 {
        lemma_credit_sum_scaled(l, pot, t);
        let c = credit_sum(l, pot, t) as int;
        assert(c <= pot) by (nonlinear_arith)
            requires
                c * t <= pot * t,
                t > 0,
        ;
    } else {
        lemma_credit_sum_zero(l, pot);
    }
}

pub proof fn lemma_credit_sum_zero(l: Seq<ClubStakingDetails>, pot: u128)
    ensures
        credit_sum(l, pot, 0) == 0,
    decreases l.len(),
{
    if l.len() > 0 {
        lemma_credit_sum_zero(l.drop_last(), pot);
    }
}

/// The two stakers' pots together are at most the reward.
pub proof fn lemma_pots_within_reward(reward: u128)
    ensures
        top_pot(reward) + all_pot(reward) <= reward,
{
    let x = mul_or_zero(reward, 19) as int;
    let y = mul_or_zero(reward, 80) as int;
    assert(x <= reward * 19);
    assert(y <= reward * 80);
    assert(x / 100 + y / 100 <= reward) by (nonlinear_arith)
        requires
            0 <= x <= reward * 19,
            0 <= y <= reward * 80,
            reward >= 0,
    ;
}

/// Where every stake names its club, a distribution hands the stakers no
/// more than the accumulated reward (19% at most to the top club's stakers
/// and 80% at most to all stakers), so the top club's owner receives the rest.
pub proof fn law_distribution_within_reward(t: Seq<(Seq<char>, Seq<ClubStakingDetails>)>, reward: u128)
    requires
        sorted_keys(t),
        stakes_named(t),
        rankable(t),
        t.len() > 0,
        grand_total(t, reward) <= u128::MAX,
    ensures
        handed_out(t, reward) <= reward,
{
    let s = club_totals(t);
    lemma_rank_len(s);
    lemma_rank_desc_members(s, 0);
    let j = choose|j: int| 0 <= j < s.len() && #[trigger] s[j] == rank_desc(s)[0];
    let top = top_club(t);
    assert(top == s[j]);
    assert(t[j].1.len() > 0);
    assert(t[j].1[0].club_name@ == t[j].0);
    lemma_key_pos_unique(t, j);
    assert(lookup(t, top.0@) == Some(t[j].1));
    assert(stakes_of(t, top.0@) == t[j].1);
    assert(top.1 == staked_total(t[j].1));
    lemma_credit_within_pot(t[j].1, top_pot(reward));
    lemma_credit_within_pot(all_stakes(after_top_pot(t, reward)), all_pot(reward));
    lemma_pots_within_reward(reward);
}

/// Every stake of a list names `club`.
pub open spec fn list_named(l: Seq<ClubStakingDetails>, club: Seq<char>) -> bool {
    forall|j: int| 0 <= j < l.len() ==> #[trigger] l[j].club_name@ == club
}

/// The stakes filed under a club name that club.
pub proof fn lemma_named_lookup(t: Seq<(Seq<char>, Seq<ClubStakingDetails>)>, club: Seq<char>)
    requires
        stakes_named(t),
    ensures
        list_named(stakes_of(t, club), club),
{
    if has_key(t, club) {
        let p = key_pos(t, club);
        assert(t[p].0 == club);
        assert forall|j: int| 0 <= j < t[p].1.len() implies #[trigger] t[p].1[j].club_name@ == club by {
            assert(t[p].1[j].club_name@ == t[p].0);
        }
    }
}

/// Filing a list of a club's stakes under that club keeps every stake under its club.
pub proof fn lemma_saved_named(t: Seq<(Seq<char>, Seq<ClubStakingDetails>)>, club: Seq<char>, l: Seq<ClubStakingDetails>)
    requires
        sorted_keys(t),
        stakes_named(t),
        list_named(l, club),
    ensures
        stakes_named(saved(t, club, l)),
{
    let s = saved(t, club, l);
    if has_key(t, club) {
        let p = key_pos(t, club);
        assert forall|i: int, j: int| 0 <= i < s.len() && 0 <= j < s[i].1.len() implies #[trigger] s[i].1[j].club_name@
            == s[i].0 by {
            if i != p {
                assert(s[i] == t[i]);
            }
        }
    } else {
        lemma_insert_pos_exists(t, club);
        let p = insert_pos(t, club);
        assert forall|i: int, j: int| 0 <= i < s.len() && 0 <= j < s[i].1.len() implies #[trigger] s[i].1[j].club_name@
            == s[i].0 by {
            if i < p {
                assert(s[i] == t[i]);
            } else if i > p {
                assert(s[i] == t[i - 1]);
            }
        }
    }
}

/// Changing stakes keeps the remaining stakes of a club named after it.
pub proof fn lemma_stake_fold_named(l: Seq<ClubStakingDetails>, staker: Seq<char>, amount: u128, increase: bool, club: Seq<char>)
    requires
        list_named(l, club),
        stake_fold(l, staker, amount, increase) is Some,
    ensures
        list_named(stake_fold(l, staker, amount, increase)->Some_0.0, club),
    decreases l.len(),
{
    if l.len() > 0 {
        assert(list_named(l.drop_last(), club)) by {
            assert forall|j: int| 0 <= j < l.drop_last().len() implies #[trigger] l.drop_last()[j].club_name@ == club by {
                assert(l.drop_last()[j] == l[j]);
            }
        }
        lemma_stake_fold_named(l.drop_last(), staker, amount, increase, club);
        assert(l.last().club_name@ == club);
    }
}

/// A stake or a withdrawal keeps every stake filed under the club it names.
pub proof fn law_staking_keeps_names(
    t: Seq<(Seq<char>, Seq<ClubStakingDetails>)>,
    staker: String,
    club_name: String,
    amount: u128,
    increase: bool,
    now: u64,
)
    requires
        sorted_keys(t),
        stakes_named(t),
        staking_saved(t, staker, club_name, amount, increase, now) is Some,
    ensures
        stakes_named(staking_saved(t, staker, club_name, amount, increase, now)->Some_0),
{
    let l = stakes_of(t, club_name@);
    lemma_named_lookup(t, club_name@);
    lemma_stake_fold_named(l, staker@, amount, increase, club_name@);
    let (kept, found) = stake_fold(l, staker@, amount, increase)->Some_0;
    if found {
        lemma_saved_named(t, club_name@, kept);
    } else if increase {
        let pushed = l.push(new_stake(staker, club_name, amount, now));
        assert(list_named(pushed, club_name@)) by {
            assert forall|j: int| 0 <= j < pushed.len() implies #[trigger] pushed[j].club_name@ == club_name@ by {
                if j < l.len() {
                    assert(pushed[j] == l[j]);
                }
            }
        }
        lemma_saved_named(t, club_name@, pushed);
    }
}

/// A staker collecting rewards keeps every stake filed under the club it names.
pub proof fn law_collecting_keeps_names(t: Seq<(Seq<char>, Seq<ClubStakingDetails>)>, club: Seq<char>, staker: Seq<char>)
    requires
        sorted_keys(t),
        stakes_named(t),
    ensures
        stakes_named(saved(t, club, rewards_collected(stakes_of(t, club), staker))),
{
    let l = stakes_of(t, club);
    lemma_named_lookup(t, club);
    let c = rewards_collected(l, staker);
    assert forall|j: int| 0 <= j < c.len() implies #[trigger] c[j].club_name@ == club by {
        assert(c[j].club_name == l[j].club_name);
    }
    lemma_saved_named(t, club, c);
}

/// Crediting a pot keeps every stake's club.
proof fn lemma_credit_named(l: Seq<ClubStakingDetails>, pot: u128, total: u128, club: Seq<char>)
    requires
        list_named(l, club),
    ensures
        list_named(credit(l, pot, total), club),
{
    let c = credit(l, pot, total);
    assert forall|j: int| 0 <= j < c.len() implies #[trigger] c[j].club_name@ == club by {
        assert(c[j].club_name == l[j].club_name);
    }
}

/// A reward distribution keeps every stake filed under the club it names.
pub proof fn law_distribution_keeps_names(t: Seq<(Seq<char>, Seq<ClubStakingDetails>)>, reward: u128)
    requires
        sorted_keys(t),
        stakes_named(t),
    ensures
        stakes_named(after_all_pots(t, reward)),
{
    let top = top_club(t);
    let l = stakes_of(t, top.0@);
    lemma_named_lookup(t, top.0@);
    lemma_credit_named(l, top_pot(reward), top.1, top.0@);
    lemma_saved_named(t, top.0@, credit(l, top_pot(reward), top.1));
    let a = after_top_pot(t, reward);
    let total = grand_total(t, reward) as u128;
    let r = credit_every_club(a, all_pot(reward), total);
    assert forall|i: int, j: int| 0 <= i < r.len() && 0 <= j < r[i].1.len() implies #[trigger] r[i].1[j].club_name@
        == r[i].0 by {
        assert(r[i].1 == credit(a[i].1, all_pot(reward), total));
        assert(a[i].1[j].club_name@ == a[i].0);
        assert(r[i].1[j].club_name == a[i].1[j].club_name);
    }
}

/// The pending bonds of a list are all pending.
pub proof fn lemma_pending_bonds_idempotent(l: Seq<ClubBondingDetails>, now: u64)
    ensures
        pending_bonds(pending_bonds(l, now), now) == pending_bonds(l, now),
    decreases l.len(),
{
    if l.len() > 0 {
        lemma_pending_bonds_idempotent(l.drop_last(), now);
        let p = pending_bonds(l.drop_last(), now);
        if crate::club_staking::bond_pending(l.last(), now) {
            assert(p.push(l.last()).drop_last() =~= p);
        }
    }
}

/// A second refund of matured bonds at the same time finds nothing more to drop.
pub proof fn law_refund_is_idempotent(t: Seq<(Seq<char>, Seq<ClubBondingDetails>)>, now: u64)
    ensures
        bonds_refunded(bonds_refunded(t, now), now) == bonds_refunded(t, now),
{
    let once = bonds_refunded(t, now);
    let twice = bonds_refunded(once, now);
    assert forall|i: int| 0 <= i < t.len() implies #[trigger] twice[i] == once[i] by {
        lemma_pending_bonds_idempotent(t[i].1, now);
    }
    assert(twice =~= once);
}

/// Every stake of a list is above zero.
pub open spec fn stakes_positive(l: Seq<ClubStakingDetails>) -> bool {
    forall|i: int| 0 <= i < l.len() ==> #[trigger] l[i].staked_amount > 0
}

/// Whether `staker` has a stake in a list.
pub open spec fn has_stake(l: Seq<ClubStakingDetails>, staker: Seq<char>) -> bool {
    exists|i: int| 0 <= i < l.len() && #[trigger] l[i].staker_address@ == staker
}

/// A list with `staker`'s stakes raised by `amount`.
pub open spec fn raised(l: Seq<ClubStakingDetails>, staker: Seq<char>, amount: u128) -> Seq<ClubStakingDetails> {
    l.map_values(
        |t: ClubStakingDetails|
            if t.staker_address@ == staker {
                ClubStakingDetails { staked_amount: (t.staked_amount + amount) as u128, ..t }
            } else {
                t
            },
    )
}

/// Raising the stakes of a list of positive stakes keeps every entry.
pub proof fn lemma_fold_raises(l: Seq<ClubStakingDetails>, staker: Seq<char>, amount: u128)
    requires
        stakes_positive(l),
        stake_increase_fits(l, staker, amount),
    ensures
        stake_fold(l, staker, amount, true) == Some((raised(l, staker, amount), has_stake(l, staker))),
    decreases l.len(),
{
    if l.len() > 0 {
        let p = l.drop_last();
        assert forall|i: int| 0 <= i < p.len() implies #[trigger] p[i].staked_amount > 0 by {
            assert(p[i] == l[i]);
        }
        assert forall|i: int| 0 <= i < p.len() && #[trigger] p[i].staker_address@ == staker implies p[i].staked_amount + amount
            <= u128::MAX by {
            assert(p[i] == l[i]);
        }
        lemma_fold_raises(p, staker, amount);
        assert(raised(l, staker, amount) =~= raised(p, staker, amount).push(raised(l, staker, amount).last()));
        assert(l.last() == l[l.len() - 1]);
        if has_stake(l, staker) {
            if !has_stake(p, staker) {
                let i = choose|i: int| 0 <= i < l.len() && #[trigger] l[i].staker_address@ == staker;
                if i < l.len() - 1 {
                    assert(p[i] == l[i]);
                }
            }
        } else {
            if has_stake(p, staker) {
                let i = choose|i: int| 0 <= i < p.len() && #[trigger] p[i].staker_address@ == staker;
                assert(p[i] == l[i]);
            }
        }
        if l.last().staker_address@ == staker {
            assert(has_stake(l, staker));
        }
        if has_stake(p, staker) {
            let i = choose|i: int| 0 <= i < p.len() && #[trigger] p[i].staker_address@ == staker;
            assert(p[i] == l[i]);
            assert(has_stake(l, staker));
        }
    }
}

/// Lowering raised stakes by the same amount gives the list back.
pub proof fn lemma_fold_lowers(l: Seq<ClubStakingDetails>, staker: Seq<char>, amount: u128)
    requires
        stakes_positive(l),
        stake_increase_fits(l, staker, amount),
    ensures
        stake_fold(raised(l, staker, amount), staker, amount, false) == Some((l, has_stake(l, staker))),
    decreases l.len(),
{
    let r = raised(l, staker, amount);
    if l.len() > 0 {
        let p = l.drop_last();
        assert forall|i: int| 0 <= i < p.len() implies #[trigger] p[i].staked_amount > 0 by {
            assert(p[i] == l[i]);
        }
        assert forall|i: int| 0 <= i < p.len() && #[trigger] p[i].staker_address@ == staker implies p[i].staked_amount + amount
            <= u128::MAX by {
            assert(p[i] == l[i]);
        }
        lemma_fold_lowers(p, staker, amount);
        assert(r.drop_last() =~= raised(p, staker, amount));
        assert(l.last() == l[l.len() - 1]);
        assert(p.push(l.last()) =~= l);
        if l.last().staker_address@ == staker {
            assert(has_stake(l, staker));
        }
        if has_stake(p, staker) {
            let i = choose|i: int| 0 <= i < p.len() && #[trigger] p[i].staker_address@ == staker;
            assert(p[i] == l[i]);
            assert(has_stake(l, staker));
        }
        if has_stake(l, staker) && l.last().staker_address@ != staker {
            let i = choose|i: int| 0 <= i < l.len() && #[trigger] l[i].staker_address@ == staker;
            assert(i < l.len() - 1);
            assert(p[i] == l[i]);
        }
    }
}

/// Staking `amount` on a club and then taking the same amount off the stake
/// gives every club its stake list back, where the club's stakes were all
/// above zero.
pub proof fn law_stake_then_unstake_restores(
    t: Seq<(Seq<char>, Seq<ClubStakingDetails>)>,
    staker: String,
    club_name: String,
    amount: u128,
    now: u64,
    later: u64,
    club: Seq<char>,
)
    requires
        sorted_keys(t),
        stakes_positive(stakes_of(t, club_name@)),
        stake_increase_fits(stakes_of(t, club_name@), staker@, amount),
    ensures
        staking_saved(t, staker, club_name, amount, true, now) is Some,
        staking_saved(staking_saved(t, staker, club_name, amount, true, now).unwrap(), staker, club_name, amount, false, later)
            is Some,
        stakes_of(
            staking_saved(staking_saved(t, staker, club_name, amount, true, now).unwrap(), staker, club_name, amount, false, later).unwrap(),
            club,
        ) == stakes_of(t, club),
{
    let l = stakes_of(t, club_name@);
    lemma_fold_raises(l, staker@, amount);
    let t1 = staking_saved(t, staker, club_name, amount, true, now).unwrap();
    let l1 = if has_stake(l, staker@) {
        raised(l, staker@, amount)
    } else {
        l.push(new_stake(staker, club_name, amount, now))
    };
    assert(t1 == saved(t, club_name@, l1));
    lemma_saved_sorted(t, club_name@, l1);
    crate::table::lemma_saved_lookup_same(t, club_name@, l1);
    assert(stakes_of(t1, club_name@) == l1);
    if has_stake(l, staker@) {
        lemma_fold_lowers(l, staker@, amount);
    } else {
        assert(raised(l, staker@, amount) =~= l) by {
            assert forall|i: int| 0 <= i < l.len() implies #[trigger] raised(l, staker@, amount)[i] == l[i] by {
                if l[i].staker_address@ == staker@ {
                    assert(has_stake(l, staker@));
                }
            }
        }
        lemma_fold_lowers(l, staker@, amount);
        assert(l1.drop_last() =~= l);
    }
    let t2 = staking_saved(t1, staker, club_name, amount, false, later).unwrap();
    assert(t2 == saved(t1, club_name@, l));
    crate::table::lemma_saved_lookup_same(t1, club_name@, l);
    if club != club_name@ {
        lemma_saved_sorted(t1, club_name@, l);
        crate::table::lemma_saved_lookup_other(t1, club_name@, l, club);
        crate::table::lemma_saved_lookup_other(t, club_name@, l1, club);
    }
}

/// A club's stake list holds one record per staker, and none of zero.
pub open spec fn stakes_kept(l: Seq<ClubStakingDetails>) -> bool {
    &&& stakes_positive(l)
    &&& forall|i: int, j: int| 0 <= i < j < l.len() ==> #[trigger] l[i].staker_address@ != #[trigger] l[j].staker_address@
}

/// What a stake fold keeps: records of stakers of the list, one per staker,
/// none of zero; and it finds the staker where the list has a stake of them.
pub proof fn lemma_fold_kept(l: Seq<ClubStakingDetails>, staker: Seq<char>, amount: u128, increase: bool)
    requires
        forall|i: int, j: int| 0 <= i < j < l.len() ==> #[trigger] l[i].staker_address@ != #[trigger] l[j].staker_address@,
    ensures
        stake_fold(l, staker, amount, increase) matches Some((k, found)) ==> {
            &&& stakes_kept(k)
            &&& found == has_stake(l, staker)
            &&& forall|i: int| 0 <= i < k.len() ==> exists|j: int| 0 <= j < l.len() && #[trigger] l[j].staker_address@
                == #[trigger] k[i].staker_address@
        },
    decreases l.len(),
{
    if l.len() > 0 {
        let p = l.drop_last();
        assert forall|i: int, j: int| 0 <= i < j < p.len() implies #[trigger] p[i].staker_address@ != #[trigger] p[j].staker_address@ by {
            assert(p[i] == l[i] && p[j] == l[j]);
        }
        lemma_fold_kept(p, staker, amount, increase);
        match stake_fold(p, staker, amount, increase) {
            None => {},
            Some((kp, fp)) => {
                let last = l.last();
                assert(last == l[l.len() - 1]);
                // the stakers of the kept records come from `p`, so not from the last record
                assert forall|i: int| 0 <= i < kp.len() implies #[trigger] kp[i].staker_address@ != last.staker_address@ by {
                    let j = choose|j: int| 0 <= j < p.len() && #[trigger] p[j].staker_address@ == #[trigger] kp[i].staker_address@;
                    assert(p[j] == l[j]);
                }
                assert forall|i: int| 0 <= i < kp.len() implies exists|j: int| 0 <= j < l.len() && #[trigger] l[j].staker_address@
                    == #[trigger] kp[i].staker_address@ by {
                    let j = choose|j: int| 0 <= j < p.len() && #[trigger] p[j].staker_address@ == #[trigger] kp[i].staker_address@;
                    assert(p[j] == l[j]);
                }
                if has_stake(p, staker) {
                    let j = choose|j: int| 0 <= j < p.len() && #[trigger] p[j].staker_address@ == staker;
                    assert(p[j] == l[j]);
                }
                if has_stake(l, staker) && last.staker_address@ != staker {
                    let j = choose|j: int| 0 <= j < l.len() && #[trigger] l[j].staker_address@ == staker;
                    assert(j < l.len() - 1);
                    assert(p[j] == l[j]);
                }
                match stake_fold(l, staker, amount, increase) {
                    None => {},
                    Some((k, found)) => {
                        if k.len() > kp.len() {
                            assert(k.drop_last() =~= kp);
                            assert(k.last().staker_address@ == last.staker_address@);
                            assert forall|i: int| 0 <= i < k.len() implies exists|j: int| 0 <= j < l.len()
                                && #[trigger] l[j].staker_address@ == #[trigger] k[i].staker_address@ by {
                                if i == k.len() - 1 {
                                    assert(l[l.len() - 1].staker_address@ == k[i].staker_address@);
                                } else {
                                    assert(k[i] == kp[i]);
                                }
                            }
                            assert forall|i: int, j: int| 0 <= i < j < k.len() implies #[trigger] k[i].staker_address@
                                != #[trigger] k[j].staker_address@ by {
                                assert(k[i] == kp[i]);
                                if j < k.len() - 1 {
                                    assert(k[j] == kp[j]);
                                }
                            }
                            assert forall|i: int| 0 <= i < k.len() implies #[trigger] k[i].staked_amount > 0 by {
                                if i < k.len() - 1 {
                                    assert(k[i] == kp[i]);
                                }
                            }
                        } else {
                            assert(k =~= kp);
                        }
                        if last.staker_address@ == staker {
                            assert(has_stake(l, staker));
                        }
                    },
                }
            },
        }
    }
}

/// A staking or an unstaking of a positive amount keeps each club's stake
/// list to one record per staker and none of zero, and leaves the other
/// clubs' lists as they were.
pub proof fn law_stakes_stay_kept(
    t: Seq<(Seq<char>, Seq<ClubStakingDetails>)>,
    staker: String,
    club_name: String,
    amount: u128,
    increase: bool,
    now: u64,
    other: Seq<char>,
)
    requires
        sorted_keys(t),
        stakes_kept(stakes_of(t, club_name@)),
        amount > 0,
    ensures
        staking_saved(t, staker, club_name, amount, increase, now) matches Some(t2) ==> {
            &&& stakes_kept(stakes_of(t2, club_name@))
            &&& other != club_name@ ==> stakes_of(t2, other) == stakes_of(t, other)
        },
{
    let l = stakes_of(t, club_name@);
    lemma_fold_kept(l, staker@, amount, increase);
    match stake_fold(l, staker@, amount, increase) {
        None => {},
        Some((kept, found)) => {
            let nl = if found {
                kept
            } else {
                l.push(new_stake(staker, club_name, amount, now))
            };
            if found || increase {
                assert(staking_saved(t, staker, club_name, amount, increase, now) == Some(saved(t, club_name@, nl)));
                crate::table::lemma_saved_lookup_same(t, club_name@, nl);
                if other != club_name@ {
                    crate::table::lemma_saved_lookup_other(t, club_name@, nl, other);
                }
                if !found {
                    assert(!has_stake(l, staker@));
                    assert forall|i: int, j: int| 0 <= i < j < nl.len() implies #[trigger] nl[i].staker_address@
                        != #[trigger] nl[j].staker_address@ by {
                        assert(nl[i] == l[i]);
                        if j < l.len() {
                            assert(nl[j] == l[j]);
                        } else {
                            assert(nl[j].staker_address@ == staker@);
                            if l[i].staker_address@ == staker@ {
                                assert(has_stake(l, staker@));
                            }
                        }
                    }
                    assert forall|i: int| 0 <= i < nl.len() implies #[trigger] nl[i].staked_amount > 0 by {
                        if i < l.len() {
                            assert(nl[i] == l[i]);
                        }
                    }
                }
            }
        },
    }
}

/// The rewards recorded on a stake list, summed.
pub open spec fn reward_total(l: Seq<ClubStakingDetails>) -> nat
    decreases l.len(),
{
    if l.len() == 0 {
        0
    } else {
        reward_total(l.drop_last()) + l.last().reward_amount as nat
    }
}

pub proof fn lemma_reward_total_append(a: Seq<ClubStakingDetails>, b: Seq<ClubStakingDetails>)
    ensures
        reward_total(a + b) == reward_total(a) + reward_total(b),
    decreases b.len(),
{
    if b.len() == 0 {
        assert(a + b =~= a);
    } else {
        assert((a + b).drop_last() =~= a + b.drop_last());
        lemma_reward_total_append(a, b.drop_last());
    }
}

pub proof fn lemma_all_rewards_update(t: Seq<(Seq<char>, Seq<ClubStakingDetails>)>, i: int, e: (Seq<char>, Seq<ClubStakingDetails>))
    requires
        0 <= i < t.len(),
    ensures
        reward_total(all_stakes(t.update(i, e))) == reward_total(all_stakes(t)) - reward_total(t[i].1) + reward_total(e.1),
    decreases t.len(),
{
    let u = t.update(i, e);
    lemma_reward_total_append(all_stakes(t.drop_last()), t.last().1);
    if i == t.len() - 1 {
        assert(u.drop_last() =~= t.drop_last());
        lemma_reward_total_append(all_stakes(u.drop_last()), u.last().1);
    } else {
        assert(u.drop_last() =~= t.drop_last().update(i, e));
        lemma_all_rewards_update(t.drop_last(), i, e);
        lemma_reward_total_append(all_stakes(u.drop_last()), u.last().1);
    }
}

pub proof fn lemma_all_rewards_insert(t: Seq<(Seq<char>, Seq<ClubStakingDetails>)>, i: int, e: (Seq<char>, Seq<ClubStakingDetails>))
    requires
        0 <= i <= t.len(),
    ensures
        reward_total(all_stakes(t.insert(i, e))) == reward_total(all_stakes(t)) + reward_total(e.1),
    decreases t.len(),
{
    let u = t.insert(i, e);
    if i == t.len() {
        assert(u.drop_last() =~= t);
        lemma_reward_total_append(all_stakes(t), e.1);
    } else {
        assert(u.drop_last() =~= t.drop_last().insert(i, e));
        lemma_all_rewards_insert(t.drop_last(), i, e);
        lemma_reward_total_append(all_stakes(u.drop_last()), u.last().1);
        lemma_reward_total_append(all_stakes(t.drop_last()), t.last().1);
    }
}

/// Saving a club's list changes the rewards of all stakes by the difference.
pub proof fn lemma_all_rewards_saved(t: Seq<(Seq<char>, Seq<ClubStakingDetails>)>, k: Seq<char>, l: Seq<ClubStakingDetails>)
    requires
        sorted_keys(t),
    ensures
        reward_total(all_stakes(saved(t, k, l))) == reward_total(all_stakes(t)) - reward_total(stakes_of(t, k)) + reward_total(l),
{
    if has_key(t, k) {
        lemma_all_rewards_update(t, key_pos(t, k), (k, l));
    } else {
        lemma_insert_pos_exists(t, k);
        lemma_all_rewards_insert(t, insert_pos(t, k), (k, l));
    }
}

/// Crediting a list adds what its stakes receive to their rewards.
pub proof fn lemma_credit_rewards(l: Seq<ClubStakingDetails>, pot: u128, total: u128)
    requires
        credit_fits(l, pot, total),
    ensures
        reward_total(credit(l, pot, total)) == reward_total(l) + credit_sum(l, pot, total),
    decreases l.len(),
{
    if l.len() > 0 {
        let p = l.drop_last();
        assert forall|i: int| 0 <= i < p.len() implies #[trigger] p[i].reward_amount + share(pot, p[i].staked_amount, total)
            <= u128::MAX by {
            assert(p[i] == l[i]);
        }
        lemma_credit_rewards(p, pot, total);
        assert(credit(l, pot, total).drop_last() =~= credit(p, pot, total));
        assert(l.last() == l[l.len() - 1]);
    }
}

/// Crediting every club adds what all stakes receive to their rewards.
pub proof fn lemma_credit_every_club_rewards(t: Seq<(Seq<char>, Seq<ClubStakingDetails>)>, pot: u128, total: u128)
    requires
        every_club_fits(t, pot, total),
    ensures
        reward_total(all_stakes(credit_every_club(t, pot, total))) == reward_total(all_stakes(t)) + credit_sum(
            all_stakes(t),
            pot,
            total,
        ),
    decreases t.len(),
{
    if t.len() > 0 {
        let p = t.drop_last();
        assert forall|i: int| 0 <= i < p.len() implies credit_fits(#[trigger] p[i].1, pot, total) by {
            assert(p[i] == t[i]);
        }
        lemma_credit_every_club_rewards(p, pot, total);
        let c = credit_every_club(t, pot, total);
        assert(c.drop_last() =~= credit_every_club(p, pot, total));
        assert(credit_fits(t[t.len() - 1].1, pot, total));
        lemma_credit_rewards(t.last().1, pot, total);
        lemma_reward_total_append(all_stakes(c.drop_last()), c.last().1);
        lemma_reward_total_append(all_stakes(p), t.last().1);
        lemma_credit_sum_append(all_stakes(p), t.last().1, pot, total);
    }
}

/// A distribution that runs adds to the stakers' rewards exactly what they
/// are handed out; with the rest going to the top club's owner, the gains
/// of stakers and owner sum to exactly the reward.
pub proof fn law_distribution_gains_sum_to_reward(t: Seq<(Seq<char>, Seq<ClubStakingDetails>)>, reward: u128)
    requires
        sorted_keys(t),
        stakes_named(t),
        rankable(t),
        t.len() > 0,
        credit_fits(stakes_of(t, top_club(t).0@), top_pot(reward), top_club(t).1),
        grand_total(t, reward) <= u128::MAX,
        every_club_fits(after_top_pot(t, reward), all_pot(reward), grand_total(t, reward) as u128),
    ensures
        reward_total(all_stakes(after_all_pots(t, reward))) == reward_total(all_stakes(t)) + handed_out(t, reward),
        handed_out(t, reward) <= reward,
        reward_total(all_stakes(after_all_pots(t, reward))) + (reward - handed_out(t, reward)) == reward_total(all_stakes(t))
            + reward,
{
    let top = top_club(t);
    let l = stakes_of(t, top.0@);
    lemma_credit_rewards(l, top_pot(reward), top.1);
    lemma_all_rewards_saved(t, top.0@, credit(l, top_pot(reward), top.1));
    lemma_credit_every_club_rewards(after_top_pot(t, reward), all_pot(reward), grand_total(t, reward) as u128);
    law_distribution_within_reward(t, reward);
}

/// An immediate withdrawal of `amount`, of which `u` comes off matured
/// bonds, burns a tenth of the rest, `(amount - u) * 10 / 100` (nothing
/// where that product overflows), and so never more than the amount; with no
/// bonds on the club nothing comes off bonds and a tenth of the whole amount
/// is burnt.
pub proof fn law_immediate_withdrawal_burns_a_tenth(l: Seq<ClubBondingDetails>, staker: Seq<char>, now: u64, amount: u128)
    ensures
        ({
            let u = immediate_withdrawal(l, staker, now, amount).1;
            let b = burn_amount(amount, u);
            &&& u <= amount
            &&& b <= amount
            &&& (amount - u) * 10 <= u128::MAX ==> b == (amount - u) * 10 / 100
            &&& (amount - u) * 10 > u128::MAX ==> b == 0
            &&& l.len() == 0 && amount * 10 <= u128::MAX ==> u == 0 && b == amount / 10
        }),
{
    lemma_withdrawal_parts(l, staker, now, amount);
    let u = immediate_withdrawal(l, staker, now, amount).1;
    let d = amount - u;
    assert(d * 10 / 100 <= d) by (nonlinear_arith)
        requires
            d >= 0,
    ;
}

/// Collecting a staker's rewards on a club leaves every stake of that staker
/// there with no reward and every other stake as it was, so the stake list's
/// rewards drop by exactly what is paid, and a second collection finds
/// nothing to pay.
pub proof fn law_claim_clears_the_stakers_rewards(t: Seq<(Seq<char>, Seq<ClubStakingDetails>)>, club: Seq<char>, staker: Seq<char>)
    requires
        sorted_keys(t),
    ensures
        ({
            let l = stakes_of(t, club);
            let c = rewards_collected(l, staker);
            &&& c.len() == l.len()
            &&& forall|i: int|
                0 <= i < l.len() ==> {
                    &&& #[trigger] c[i].staker_address == l[i].staker_address
                    &&& c[i].club_name == l[i].club_name
                    &&& c[i].staked_amount == l[i].staked_amount
                    &&& l[i].staker_address@ == staker ==> c[i].reward_amount == 0
                    &&& l[i].staker_address@ != staker ==> c[i] == l[i]
                }
            &&& reward_total(c) + staker_rewards(l, staker) == reward_total(l)
            &&& staker_rewards(stakes_of(saved(t, club, c), club), staker) == 0
        }),
{
    let l = stakes_of(t, club);
    let c = rewards_collected(l, staker);
    lemma_collected_rewards(l, staker);
    lemma_saved_lookup_same(t, club, c);
}

/// Collecting takes off the list's rewards exactly the staker's rewards and
/// leaves the staker none.
proof fn lemma_collected_rewards(l: Seq<ClubStakingDetails>, staker: Seq<char>)
    ensures
        reward_total(rewards_collected(l, staker)) + staker_rewards(l, staker) == reward_total(l),
        staker_rewards(rewards_collected(l, staker), staker) == 0,
    decreases l.len(),
{
    if l.len() > 0 {
        let c = rewards_collected(l, staker);
        assert(c.drop_last() =~= rewards_collected(l.drop_last(), staker));
        lemma_collected_rewards(l.drop_last(), staker);
        assert(c.last() == c[l.len() - 1]);
    }
}

} // verus!
