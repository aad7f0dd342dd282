//! Properties of the airdrop that span a booking and a claim: what the token
//! contract sends is booked for the users in full, and a claim takes off the
//! books exactly what it pays.
use vstd::prelude::*;
use crate::airdrop::{
    ActivityRecord, UserRewardInfo, accrue, accrue_fits, accrued_total, booked, booking_fits, cleared, initial_records,
    records_of, reward_sum, with_user,
};
use crate::table::{
    has_key, insert_pos, key_pos, lemma_insert_pos_exists, lemma_saved_entry, lemma_saved_lookup_other,
    lemma_saved_lookup_same, lemma_saved_sorted, lookup, saved, sorted_keys,
};

verus! {

/// How many records are of activity `activity`.
pub open spec fn named_count(l: Seq<ActivityRecord>, activity: Seq<char>) -> nat
    decreases l.len(),
{
    if l.len() == 0 {
        0
    } else {
        named_count(l.drop_last(), activity) + if l.last().1 == activity {
            1nat
        } else {
            0nat
        }
    }
}

/// Accruing adds the amount once for every record of the activity.
pub proof fn lemma_accrue_total(l: Seq<ActivityRecord>, activity: Seq<char>, amount: u128)
    requires
        accrue_fits(l, activity, amount),
    ensures
        accrued_total(accrue(l, activity, amount)) == accrued_total(l) + amount * named_count(l, activity),
    decreases l.len(),
{
    if l.len() > 0 {
        let d = l.drop_last();
        assert(accrue_fits(d, activity, amount)) by {
            assert forall|i: int| 0 <= i < d.len() && (#[trigger] d[i]).1 == activity implies d[i].3 + amount
                <= u128::MAX by {
                assert(d[i] == l[i]);
            }
        }
        lemma_accrue_total(d, activity, amount);
        assert(accrue(l, activity, amount).drop_last() =~= accrue(d, activity, amount));
        assert(l[l.len() - 1] == l.last());
        let c = named_count(d, activity);
        let acc = accrue(l, activity, amount);
        assert(acc.last() == acc[l.len() - 1]);
        if l.last().1 == activity {
            assert(acc.last().3 == l.last().3 + amount);
            assert(amount * (c + 1) == amount * c + amount) by (nonlinear_arith);
        } else {
            assert(acc.last().3 == l.last().3);
        }
    } else {
        assert(amount * 0 == 0);
    }
}

/// Cleared records hold no reward.
pub proof fn lemma_cleared_total(l: Seq<ActivityRecord>)
    ensures
        accrued_total(cleared(l)) == 0,
    decreases l.len(),
{
    if l.len() > 0 {
        assert(cleared(l).drop_last() =~= cleared(l.drop_last()));
        lemma_cleared_total(l.drop_last());
    }
}

/// After a claim, the user has nothing left to claim.
pub proof fn law_claim_leaves_nothing(recs: Seq<(Seq<char>, Seq<ActivityRecord>)>, user: Seq<char>)
    requires
        sorted_keys(recs),
    ensures
        accrued_total(records_of(saved(recs, user, cleared(records_of(recs, user))), user)) == 0,
{
    lemma_saved_lookup_same(recs, user, cleared(records_of(recs, user)));
    lemma_cleared_total(records_of(recs, user));
}

/// A user's first reward on one of the four activities is what the user can
/// then claim.
pub proof fn law_first_reward_claimable(
    luna: Seq<(Seq<char>, (Seq<char>, bool, u128))>,
    recs: Seq<(Seq<char>, Seq<ActivityRecord>)>,
    activity: Seq<char>,
    reward: UserRewardInfo,
)
    requires
        sorted_keys(recs),
        !has_key(luna, reward.user_name@),
        is_activity(activity),
    ensures
        accrued_total(records_of(booked(luna, recs, activity, seq![reward]).1, reward.user_name@)) == reward.reward_amount,
{
    let user = reward.user_name@;
    let list = seq![reward];
    assert(list.drop_last() =~= Seq::<UserRewardInfo>::empty());
    let known = with_user(luna, recs, user);
    lemma_saved_lookup_same(recs, user, initial_records(user));
    let init = initial_records(user);
    assert(records_of(known.1, user) == init);
    lemma_initial_records(user, activity);
    assert(named_count(init, activity) == 1);
    assert(accrue_fits(init, activity, reward.reward_amount)) by {
        assert forall|i: int| 0 <= i < init.len() && (#[trigger] init[i]).1 == activity implies init[i].3
            + reward.reward_amount <= u128::MAX by {
            assert(init[i].3 == 0);
        }
    }
    lemma_accrue_total(init, activity, reward.reward_amount);
    lemma_saved_sorted(recs, user, init);
    lemma_saved_lookup_same(known.1, user, accrue(init, activity, reward.reward_amount));
    assert(list.last() == reward);
    assert(booked(luna, recs, activity, list.drop_last()) == (luna, recs));
    assert(booked(luna, recs, activity, list).1 == saved(known.1, user, accrue(init, activity, reward.reward_amount)));
}

/// One of the four activities every user has.
pub open spec fn is_activity(a: Seq<char>) -> bool {
    a == "LUNA_ACTIVITY"@ || a == "GAMING_ACTIVITY"@ || a == "STAKING_ACTIVITY"@ || a == "LIQUIDITY_ACTIVITY"@
}

/// A user's records hold each of the four activities once.
pub open spec fn shaped(l: Seq<ActivityRecord>) -> bool {
    forall|a: Seq<char>| is_activity(a) ==> #[trigger] named_count(l, a) == 1
}

/// What all users can claim: the rewards accrued over every user's records.
pub open spec fn books_total(t: Seq<(Seq<char>, Seq<ActivityRecord>)>) -> nat
    decreases t.len(),
{
    if t.len() == 0 {
        0
    } else {
        books_total(t.drop_last()) + accrued_total(t.last().1)
    }
}

proof fn lemma_books_update(t: Seq<(Seq<char>, Seq<ActivityRecord>)>, i: int, e: (Seq<char>, Seq<ActivityRecord>))
    requires
        0 <= i < t.len(),
    ensures
        books_total(t.update(i, e)) == books_total(t) - accrued_total(t[i].1) + accrued_total(e.1),
    decreases t.len(),
{
    let u = t.update(i, e);
    if i < t.len() - 1 {
        assert(u.drop_last() =~= t.drop_last().update(i, e));
        lemma_books_update(t.drop_last(), i, e);
    } else {
        assert(u.drop_last() =~= t.drop_last());
    }
}

proof fn lemma_books_insert(t: Seq<(Seq<char>, Seq<ActivityRecord>)>, i: int, e: (Seq<char>, Seq<ActivityRecord>))
    requires
        0 <= i <= t.len(),
    ensures
        books_total(t.insert(i, e)) == books_total(t) + accrued_total(e.1),
    decreases t.len(),
{
    let u = t.insert(i, e);
    if i == t.len() {
        assert(u.drop_last() =~= t);
    } else {
        assert(u.drop_last() =~= t.drop_last().insert(i, e));
        lemma_books_insert(t.drop_last(), i, e);
    }
}

/// Saving a user's records changes the books by the difference of their totals.
pub proof fn lemma_books_saved(t: Seq<(Seq<char>, Seq<ActivityRecord>)>, user: Seq<char>, l: Seq<ActivityRecord>)
    requires
        sorted_keys(t),
    ensures
        books_total(saved(t, user, l)) == books_total(t) - accrued_total(records_of(t, user)) + accrued_total(l),
{
    if has_key(t, user) {
        lemma_books_update(t, key_pos(t, user), (user, l));
    } else {
        lemma_insert_pos_exists(t, user);
        lemma_books_insert(t, insert_pos(t, user), (user, l));
    }
}

/// Accruing keeps the activities of the records.
pub proof fn lemma_accrue_names(l: Seq<ActivityRecord>, activity: Seq<char>, amount: u128, a: Seq<char>)
    ensures
        named_count(accrue(l, activity, amount), a) == named_count(l, a),
    decreases l.len(),
{
    if l.len() > 0 {
        assert(accrue(l, activity, amount).drop_last() =~= accrue(l.drop_last(), activity, amount));
        lemma_accrue_names(l.drop_last(), activity, amount, a);
        assert(accrue(l, activity, amount).last().1 == l.last().1);
    }
}

/// Clearing keeps the activities of the records.
pub proof fn lemma_cleared_names(l: Seq<ActivityRecord>, a: Seq<char>)
    ensures
        named_count(cleared(l), a) == named_count(l, a),
    decreases l.len(),
{
    if l.len() > 0 {
        assert(cleared(l).drop_last() =~= cleared(l.drop_last()));
        lemma_cleared_names(l.drop_last(), a);
    }
}

/// A new user's records hold each of the four activities once, with nothing accrued.
pub proof fn lemma_initial_records(user: Seq<char>, a: Seq<char>)
    ensures
        named_count(initial_records(user), a) == if is_activity(a) { 1nat } else { 0nat },
        accrued_total(initial_records(user)) == 0,
{
    let init = initial_records(user);
    reveal_strlit("LUNA_ACTIVITY");
    reveal_strlit("GAMING_ACTIVITY");
    reveal_strlit("STAKING_ACTIVITY");
    reveal_strlit("LIQUIDITY_ACTIVITY");
    let s3 = init.drop_last();
    let s2 = s3.drop_last();
    let s1 = s2.drop_last();
    let s0 = s1.drop_last();
    assert(s0 =~= Seq::<ActivityRecord>::empty());
    assert(s1 =~= seq![init[0]]);
    assert(s2 =~= seq![init[0], init[1]]);
    assert(s3 =~= seq![init[0], init[1], init[2]]);
    assert("LUNA_ACTIVITY"@.len() == 13 && "GAMING_ACTIVITY"@.len() == 15);
    assert("STAKING_ACTIVITY"@.len() == 16 && "LIQUIDITY_ACTIVITY"@.len() == 18);
    assert(named_count(s0, a) == 0);
    assert(named_count(s1, a) == if a == "LUNA_ACTIVITY"@ { 1nat } else { 0nat });
    assert(named_count(s2, a) == if a == "LUNA_ACTIVITY"@ || a == "GAMING_ACTIVITY"@ { 1nat } else { 0nat });
    assert(named_count(s3, a) == if a == "LUNA_ACTIVITY"@ || a == "GAMING_ACTIVITY"@ || a == "STAKING_ACTIVITY"@ {
        1nat
    } else {
        0nat
    });
    assert(accrued_total(s0) == 0);
    assert(accrued_total(s1) == 0);
    assert(accrued_total(s2) == 0);
    assert(accrued_total(s3) == 0);
}

/// The luna records and the activity records know the same users, and every
/// user's records hold each of the four activities once.
pub open spec fn books_agree(
    luna: Seq<(Seq<char>, (Seq<char>, bool, u128))>,
    recs: Seq<(Seq<char>, Seq<ActivityRecord>)>,
) -> bool {
    &&& sorted_keys(luna)
    &&& sorted_keys(recs)
    &&& forall|u: Seq<char>| #![trigger has_key(luna, u)] #![trigger has_key(recs, u)] has_key(luna, u) == has_key(recs, u)
    &&& forall|i: int| 0 <= i < recs.len() ==> shaped(#[trigger] recs[i].1)
}

/// The records of a known user hold each of the four activities once.
proof fn lemma_known_shaped(
    luna: Seq<(Seq<char>, (Seq<char>, bool, u128))>,
    recs: Seq<(Seq<char>, Seq<ActivityRecord>)>,
    user: Seq<char>,
)
    requires
        books_agree(luna, recs),
        has_key(recs, user),
    ensures
        shaped(records_of(recs, user)),
{
    let p = key_pos(recs, user);
    assert(shaped(recs[p].1));
}

/// Saving records that hold each activity once, under a user already known,
/// keeps the books in agreement.
proof fn lemma_save_shaped(
    luna: Seq<(Seq<char>, (Seq<char>, bool, u128))>,
    recs: Seq<(Seq<char>, Seq<ActivityRecord>)>,
    user: Seq<char>,
    l: Seq<ActivityRecord>,
)
    requires
        books_agree(luna, recs),
        has_key(recs, user),
        shaped(l),
    ensures
        books_agree(luna, saved(recs, user, l)),
{
    let next = saved(recs, user, l);
    lemma_saved_sorted(recs, user, l);
    lemma_saved_lookup_same(recs, user, l);
    assert forall|u: Seq<char>| #![trigger has_key(luna, u)] #![trigger has_key(next, u)] has_key(luna, u) == has_key(next, u) by {
        if u != user {
            lemma_saved_lookup_other(recs, user, l, u);
        }
        assert(has_key(luna, u) == has_key(recs, u));
    }
    assert forall|i: int| 0 <= i < next.len() implies shaped(#[trigger] next[i].1) by {
        let j = lemma_saved_entry(recs, user, l, i);
        if next[i] != (user, l) {
            assert(shaped(recs[j].1));
        }
    }
}

/// Booking one user's reward on one of the four activities adds it to the
/// books and keeps them in agreement.
proof fn lemma_book_one(
    luna: Seq<(Seq<char>, (Seq<char>, bool, u128))>,
    recs: Seq<(Seq<char>, Seq<ActivityRecord>)>,
    activity: Seq<char>,
    u: UserRewardInfo,
)
    requires
        books_agree(luna, recs),
        is_activity(activity),
        accrue_fits(records_of(with_user(luna, recs, u.user_name@).1, u.user_name@), activity, u.reward_amount),
    ensures
        ({
            let name = u.user_name@;
            let known = with_user(luna, recs, name);
            let next = saved(known.1, name, accrue(records_of(known.1, name), activity, u.reward_amount));
            &&& books_agree(known.0, next)
            &&& books_total(next) == books_total(recs) + u.reward_amount
        }),
{
    let name = u.user_name@;
    let known = with_user(luna, recs, name);
    if !has_key(luna, name) {
        let init = initial_records(name);
        let entry = (name, true, 0u128);
        assert(!has_key(recs, name));
        assert(records_of(recs, name) == Seq::<ActivityRecord>::empty());
        lemma_books_saved(recs, name, init);
        lemma_initial_records(name, activity);
        lemma_saved_sorted(recs, name, init);
        lemma_saved_sorted(luna, name, entry);
        lemma_saved_lookup_same(recs, name, init);
        lemma_saved_lookup_same(luna, name, entry);
        assert forall|a: Seq<char>| is_activity(a) implies #[trigger] named_count(init, a) == 1 by {
            lemma_initial_records(name, a);
        }
        assert forall|v: Seq<char>| #![trigger has_key(known.0, v)] #![trigger has_key(known.1, v)] has_key(known.0, v)
            == has_key(known.1, v) by {
            if v != name {
                lemma_saved_lookup_other(recs, name, init, v);
                lemma_saved_lookup_other(luna, name, entry, v);
            }
            assert(has_key(luna, v) == has_key(recs, v));
        }
        assert forall|i: int| 0 <= i < known.1.len() implies shaped(#[trigger] known.1[i].1) by {
            let j = lemma_saved_entry(recs, name, init, i);
            if known.1[i] != (name, init) {
                assert(shaped(recs[j].1));
            }
        }
    }
    assert(books_agree(known.0, known.1));
    assert(books_total(known.1) == books_total(recs));
    assert(has_key(known.1, name));
    lemma_known_shaped(known.0, known.1, name);
    let l = records_of(known.1, name);
    let acc = accrue(l, activity, u.reward_amount);
    lemma_accrue_total(l, activity, u.reward_amount);
    assert(named_count(l, activity) == 1);
    lemma_books_saved(known.1, name, acc);
    assert forall|a: Seq<char>| is_activity(a) implies #[trigger] named_count(acc, a) == 1 by {
        lemma_accrue_names(l, activity, u.reward_amount, a);
    }
    lemma_save_shaped(known.0, known.1, name, acc);
}

/// Booking a list of rewards on one of the four activities adds the list's
/// total to what the users can claim, and keeps the books in agreement: the
/// tokens that came along with the list are booked in full.
pub proof fn law_booking_adds_the_rewards(
    luna: Seq<(Seq<char>, (Seq<char>, bool, u128))>,
    recs: Seq<(Seq<char>, Seq<ActivityRecord>)>,
    activity: Seq<char>,
    list: Seq<UserRewardInfo>,
)
    requires
        books_agree(luna, recs),
        is_activity(activity),
        booking_fits(luna, recs, activity, list),
    ensures
        books_agree(booked(luna, recs, activity, list).0, booked(luna, recs, activity, list).1),
        books_total(booked(luna, recs, activity, list).1) == books_total(recs) + reward_sum(list),
    decreases list.len(),
{
    if list.len() > 0 {
        law_booking_adds_the_rewards(luna, recs, activity, list.drop_last());
        let before = booked(luna, recs, activity, list.drop_last());
        lemma_book_one(before.0, before.1, activity, list.last());
    }
}

/// A claim takes off the books exactly what it pays the user, and keeps them
/// in agreement.
pub proof fn law_claim_takes_what_it_pays(
    luna: Seq<(Seq<char>, (Seq<char>, bool, u128))>,
    recs: Seq<(Seq<char>, Seq<ActivityRecord>)>,
    user: Seq<char>,
)
    requires
        books_agree(luna, recs),
        accrued_total(records_of(recs, user)) > 0,
    ensures
        books_agree(luna, saved(recs, user, cleared(records_of(recs, user)))),
        books_total(saved(recs, user, cleared(records_of(recs, user)))) == books_total(recs) - accrued_total(
            records_of(recs, user),
        ),
{
    let l = records_of(recs, user);
    assert(has_key(recs, user));
    lemma_known_shaped(luna, recs, user);
    lemma_cleared_total(l);
    lemma_books_saved(recs, user, cleared(l));
    assert forall|a: Seq<char>| is_activity(a) implies #[trigger] named_count(cleared(l), a) == 1 by {
        lemma_cleared_names(l, a);
    }
    lemma_save_shaped(luna, recs, user, cleared(l));
}

} // verus!
