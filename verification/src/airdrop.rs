//! Activity airdrop: the token contract books rewards for users on an
//! activity; a user's first reward opens a luna record and four activities;
//! users claim what has accrued over their activities.
use vstd::prelude::*;
use vstd::string::StringExecFns;
use crate::response::{Response, payout, payout_response};
use crate::table::{
    Table, has_key, lemma_map_vals_lookup, lemma_map_vals_saved, lookup, map_vals, saved, sorted_keys,
};

verus! {

#[derive(Debug, PartialEq, Eq)]
pub struct Config {
    pub admin_address: String,
    pub minting_contract_address: String,
}

#[derive(Debug, PartialEq, Eq)]
pub struct LunaUserDetails {
    pub user_name: String,
    pub luna_airdrop_qualified: bool,
    pub luna_airdrop_reward_amount: u128,
}

/// A luna record as (user, qualified, reward).
impl View for LunaUserDetails {
    type V = (Seq<char>, bool, u128);

    open spec fn view(&self) -> (Seq<char>, bool, u128) {
        (self.user_name@, self.luna_airdrop_qualified, self.luna_airdrop_reward_amount)
    }
}

#[derive(Debug, PartialEq, Eq)]
pub struct UserActivityDetails {
    pub user_name: String,
    pub activity_name: String,
    pub activity_qualified: bool,
    pub activity_reward_amount_accrued: u128,
}

/// An activity record as (user, activity, qualified, accrued reward).
pub type ActivityRecord = (Seq<char>, Seq<char>, bool, u128);

impl View for UserActivityDetails {
    type V = ActivityRecord;

    open spec fn view(&self) -> ActivityRecord {
        (self.user_name@, self.activity_name@, self.activity_qualified, self.activity_reward_amount_accrued)
    }
}

/// A reward for one user.
#[derive(Debug, PartialEq, Eq)]
pub struct UserRewardInfo {
    pub user_name: String,
    pub reward_amount: u128,
}

#[derive(Debug, PartialEq, Eq)]
pub enum AirdropError {
    Unauthorized,
    /// "Total reward amount does not match individual reward amounts"
    RewardTotalMismatch,
    /// "No reward for this user"
    NoRewardForUser,
    /// "No luna user details found"
    NoLunaUserDetails,
    /// "No airdrop activity details found"
    NoActivityDetails,
}

/// The contract's storage.
pub struct Airdrop {
    pub config: Config,
    pub luna_users: Table<LunaUserDetails>,
    pub activities: Table<Vec<UserActivityDetails>>,
}

/// An activity list as records.
pub open spec fn list_records(l: Seq<UserActivityDetails>) -> Seq<ActivityRecord> {
    l.map_values(|a: UserActivityDetails| a@)
}

pub open spec fn as_records() -> spec_fn(Seq<UserActivityDetails>) -> Seq<ActivityRecord> {
    |l: Seq<UserActivityDetails>| list_records(l)
}

/// The four activities a new user starts with: none qualified, nothing accrued.
pub open spec fn initial_records(user: Seq<char>) -> Seq<ActivityRecord> {
    seq![
        (user, "LUNA_ACTIVITY"@, false, 0u128),
        (user, "GAMING_ACTIVITY"@, false, 0u128),
        (user, "STAKING_ACTIVITY"@, false, 0u128),
        (user, "LIQUIDITY_ACTIVITY"@, false, 0u128),
    ]
}

/// A user's activity records, none if the user has none.
pub open spec fn records_of(t: Seq<(Seq<char>, Seq<ActivityRecord>)>, user: Seq<char>) -> Seq<ActivityRecord> {
    match lookup(t, user) {
        Some(l) => l,
        None => Seq::empty(),
    }
}

/// The records with `amount` added to those of activity `activity`.
pub open spec fn accrue(l: Seq<ActivityRecord>, activity: Seq<char>, amount: u128) -> Seq<ActivityRecord> {
    l.map_values(
        |a: ActivityRecord|
            if a.1 == activity {
                (a.0, a.1, a.2, (a.3 + amount) as u128)
            } else {
                a
            },
    )
}

/// No record of activity `activity` overflows when `amount` is added.
pub open spec fn accrue_fits(l: Seq<ActivityRecord>, activity: Seq<char>, amount: u128) -> bool {
    forall|i: int| 0 <= i < l.len() && (#[trigger] l[i]).1 == activity ==> l[i].3 + amount <= u128::MAX
}

/// The tables once `user` is known: a user not yet known gets a qualified
/// luna record and the four initial activities.
pub open spec fn with_user(
    luna: Seq<(Seq<char>, (Seq<char>, bool, u128))>,
    recs: Seq<(Seq<char>, Seq<ActivityRecord>)>,
    user: Seq<char>,
) -> (Seq<(Seq<char>, (Seq<char>, bool, u128))>, Seq<(Seq<char>, Seq<ActivityRecord>)>) {
    if has_key(luna, user) {
        (luna, recs)
    } else {
        (saved(luna, user, (user, true, 0u128)), saved(recs, user, initial_records(user)))
    }
}

/// The tables after the rewards of a list were booked on `activity`, one after the other.
pub open spec fn booked(
    luna: Seq<(Seq<char>, (Seq<char>, bool, u128))>,
    recs: Seq<(Seq<char>, Seq<ActivityRecord>)>,
    activity: Seq<char>,
    list: Seq<UserRewardInfo>,
) -> (Seq<(Seq<char>, (Seq<char>, bool, u128))>, Seq<(Seq<char>, Seq<ActivityRecord>)>)
    decreases list.len(),
{
    if list.len() == 0 {
        (luna, recs)
    } else {
        let before = booked(luna, recs, activity, list.drop_last());
        let u = list.last();
        let known = with_user(before.0, before.1, u.user_name@);
        (known.0, saved(known.1, u.user_name@, accrue(records_of(known.1, u.user_name@), activity, u.reward_amount)))
    }
}

/// No booking of the list overflows an accrued reward.
pub open spec fn booking_fits(
    luna: Seq<(Seq<char>, (Seq<char>, bool, u128))>,
    recs: Seq<(Seq<char>, Seq<ActivityRecord>)>,
    activity: Seq<char>,
    list: Seq<UserRewardInfo>,
) -> bool
    decreases list.len(),
{
    if list.len() == 0 {
        true
    } else {
        let before = booked(luna, recs, activity, list.drop_last());
        let u = list.last();
        let known = with_user(before.0, before.1, u.user_name@);
        booking_fits(luna, recs, activity, list.drop_last()) && accrue_fits(
            records_of(known.1, u.user_name@),
            activity,
            u.reward_amount,
        )
    }
}

pub proof fn lemma_booking_fits_prefix(
    luna: Seq<(Seq<char>, (Seq<char>, bool, u128))>,
    recs: Seq<(Seq<char>, Seq<ActivityRecord>)>,
    activity: Seq<char>,
    list: Seq<UserRewardInfo>,
    k: int,
)
    requires
        0 <= k <= list.len(),
        booking_fits(luna, recs, activity, list),
    ensures
        booking_fits(luna, recs, activity, list.take(k)),
    decreases list.len(),
{
    if k < list.len() {
        assert(list.drop_last().take(k) =~= list.take(k));
        lemma_booking_fits_prefix(luna, recs, activity, list.drop_last(), k);
    } else {
        assert(list.take(k) =~= list);
    }
}

/// The rewards of a list, summed.
pub open spec fn reward_sum(list: Seq<UserRewardInfo>) -> nat
    decreases list.len(),
{
    if list.len() == 0 {
        0
    } else {
        reward_sum(list.drop_last()) + list.last().reward_amount as nat
    }
}

pub proof fn lemma_reward_sum_prefix(list: Seq<UserRewardInfo>, k: int)
    requires
        0 <= k <= list.len(),
    ensures
        reward_sum(list.take(k)) <= reward_sum(list),
    decreases list.len(),
{
    if k < list.len() {
        assert(list.drop_last().take(k) =~= list.take(k));
        lemma_reward_sum_prefix(list.drop_last(), k);
    } else {
        assert(list.take(k) =~= list);
    }
}

/// The rewards accrued over a list of records.
pub open spec fn accrued_total(l: Seq<ActivityRecord>) -> nat
    decreases l.len(),
{
    if l.len() == 0 {
        0
    } else {
        accrued_total(l.drop_last()) + l.last().3 as nat
    }
}

pub proof fn lemma_accrued_total_prefix(l: Seq<ActivityRecord>, k: int)
    requires
        0 <= k <= l.len(),
    ensures
        accrued_total(l.take(k)) <= accrued_total(l),
    decreases l.len(),
{
    if k < l.len() {
        assert(l.drop_last().take(k) =~= l.take(k));
        lemma_accrued_total_prefix(l.drop_last(), k);
    } else {
        assert(l.take(k) =~= l);
    }
}

/// The records with nothing accrued.
pub open spec fn cleared(l: Seq<ActivityRecord>) -> Seq<ActivityRecord> {
    l.map_values(|a: ActivityRecord| (a.0, a.1, a.2, 0u128))
}

/// All records, user by user in key order.
pub open spec fn all_records(t: Seq<(Seq<char>, Seq<ActivityRecord>)>) -> Seq<ActivityRecord>
    decreases t.len(),
{
    if t.len() == 0 {
        Seq::empty()
    } else {
        all_records(t.drop_last()) + t.last().1
    }
}

pub fn clone_activity(a: &UserActivityDetails) -> (r: UserActivityDetails)
    ensures
        r == *a,
{
    UserActivityDetails {
        user_name: a.user_name.clone(),
        activity_name: a.activity_name.clone(),
        activity_qualified: a.activity_qualified,
        activity_reward_amount_accrued: a.activity_reward_amount_accrued,
    }
}

pub fn clone_activities(l: &Vec<UserActivityDetails>) -> (r: Vec<UserActivityDetails>)
    ensures
        r@ == l@,
{
    let mut r: Vec<UserActivityDetails> = Vec::new();
    let mut i: usize = 0;
    while i < l.len()
        invariant
            i <= l@.len(),
            r@ == l@.take(i as int),
        decreases l@.len() - i,
    {
        r.push(clone_activity(&l[i]));
        assert(l@.take(i + 1) =~= l@.take(i as int).push(l@[i as int]));
        i = i + 1;
    }
    assert(l@.take(l@.len() as int) =~= l@);
    r
}

fn initial_activities(user: &String) -> (r: Vec<UserActivityDetails>)
    ensures
        list_records(r@) == initial_records(user@),
{
    let mut r: Vec<UserActivityDetails> = Vec::new();
    r.push(UserActivityDetails {
        user_name: user.clone(),
        activity_name: String::from_str("LUNA_ACTIVITY"),
        activity_qualified: false,
        activity_reward_amount_accrued: 0,
    });
    r.push(UserActivityDetails {
        user_name: user.clone(),
        activity_name: String::from_str("GAMING_ACTIVITY"),
        activity_qualified: false,
        activity_reward_amount_accrued: 0,
    });
    r.push(UserActivityDetails {
        user_name: user.clone(),
        activity_name: String::from_str("STAKING_ACTIVITY"),
        activity_qualified: false,
        activity_reward_amount_accrued: 0,
    });
    r.push(UserActivityDetails {
        user_name: user.clone(),
        activity_name: String::from_str("LIQUIDITY_ACTIVITY"),
        activity_qualified: false,
        activity_reward_amount_accrued: 0,
    });
    assert(list_records(r@) =~= initial_records(user@));
    r
}

/// Adds `amount` to the accrued reward of the activities named `activity`.
fn accrue_list(l: &Vec<UserActivityDetails>, activity: &String, amount: u128) -> (r: Vec<UserActivityDetails>)
    requires
        accrue_fits(list_records(l@), activity@, amount),
    ensures
        list_records(r@) == accrue(list_records(l@), activity@, amount),
{
    let mut r: Vec<UserActivityDetails> = Vec::new();
    let mut j: usize = 0;
    while j < l.len()
        invariant
            j <= l@.len(),
            accrue_fits(list_records(l@), activity@, amount),
            list_records(r@) == accrue(list_records(l@), activity@, amount).take(j as int),
        decreases l@.len() - j,
    {
        let mut a = clone_activity(&l[j]);
        assert(list_records(l@)[j as int] == l@[j as int]@);
        if a.activity_name.eq(activity) {
            a.activity_reward_amount_accrued = a.activity_reward_amount_accrued + amount;
        }
        assert(a@ == accrue(list_records(l@), activity@, amount)[j as int]);
        let ghost r0 = r@;
        let ghost av = a@;
        r.push(a);
        assert(list_records(r@) =~= list_records(r0).push(av));
        assert(list_records(r@) =~= accrue(list_records(l@), activity@, amount).take(j + 1));
        j = j + 1;
    }
    assert(list_records(r@) =~= accrue(list_records(l@), activity@, amount));
    r
}

impl Airdrop {
    pub open spec fn wf(&self) -> bool {
        &&& self.luna_users.wf()
        &&& self.activities.wf()
    }

    /// Every user's activity records.
    pub open spec fn records(&self) -> Seq<(Seq<char>, Seq<ActivityRecord>)> {
        map_vals(self.activities@, as_records())
    }

    pub fn instantiate(config: Config) -> (s: Self)
        ensures
            s.wf(),
            s.config == config,
            s.luna_users@.len() == 0,
            s.activities@.len() == 0,
    {
        Airdrop { config, luna_users: Table::new(), activities: Table::new() }
    }

    /// From the token contract only: books each user's reward on
    /// `activity_name`, one after the other; a user not yet known first gets
    /// a luna record and the four activities. The rewards must add up to
    /// `total_reward_amount`, the tokens that came along.
    pub fn update_activity_reward_for_users(
        &mut self,
        sender: &String,
        activity_name: String,
        user_reward_list: Vec<UserRewardInfo>,
        total_reward_amount: u128,
    ) -> (r: Result<Response, AirdropError>)
        requires
            old(self).wf(),
            old(self).config.minting_contract_address@ == sender@ ==> reward_sum(user_reward_list@) <= u128::MAX
                && booking_fits(old(self).luna_users@, old(self).records(), activity_name@, user_reward_list@),
        ensures
            final(self).wf(),
            old(self).config.minting_contract_address@ != sender@ ==> r == Err::<Response, AirdropError>(
                AirdropError::Unauthorized,
            ) && *final(self) == *old(self),
            old(self).config.minting_contract_address@ == sender@ && reward_sum(user_reward_list@) != total_reward_amount
                ==> r == Err::<Response, AirdropError>(AirdropError::RewardTotalMismatch) && *final(self) == *old(self),
            old(self).config.minting_contract_address@ == sender@ && reward_sum(user_reward_list@) == total_reward_amount
                ==> ({
                &&& r matches Ok(resp) && resp.messages@.len() == 0 && resp.attrs().len() == 0 && resp.data.is_none()
                &&& final(self).config == old(self).config
                &&& (final(self).luna_users@, final(self).records()) == booked(
                    old(self).luna_users@,
                    old(self).records(),
                    activity_name@,
                    user_reward_list@,
                )
            }),
    {
        if !self.config.minting_contract_address.eq(sender) {
            return Err(AirdropError::Unauthorized);
        }
        let mut computed: u128 = 0;
        let mut k: usize = 0;
        while k < user_reward_list.len()
            invariant
                k <= user_reward_list@.len(),
                reward_sum(user_reward_list@) <= u128::MAX,
                computed == reward_sum(user_reward_list@.take(k as int)),
            decreases user_reward_list@.len() - k,
        {
            proof {
                assert(user_reward_list@.take(k + 1).drop_last() =~= user_reward_list@.take(k as int));
                lemma_reward_sum_prefix(user_reward_list@, k + 1);
            }
            computed = computed + user_reward_list[k].reward_amount;
            k = k + 1;
        }
        assert(user_reward_list@.take(user_reward_list@.len() as int) =~= user_reward_list@);
        if computed != total_reward_amount {
            return Err(AirdropError::RewardTotalMismatch);
        }
        let ghost luna0 = self.luna_users@;
        let ghost recs0 = self.records();
        let mut i: usize = 0;
        while i < user_reward_list.len()
            invariant
                i <= user_reward_list@.len(),
                self.wf(),
                self.config == old(self).config,
                booking_fits(luna0, recs0, activity_name@, user_reward_list@),
                (self.luna_users@, self.records()) == booked(luna0, recs0, activity_name@, user_reward_list@.take(i as int)),
            decreases user_reward_list@.len() - i,
        {
            proof {
                assert(user_reward_list@.take(i + 1).drop_last() =~= user_reward_list@.take(i as int));
                lemma_booking_fits_prefix(luna0, recs0, activity_name@, user_reward_list@, i + 1);
            }
            let name = user_reward_list[i].user_name.clone();
            let amount = user_reward_list[i].reward_amount;
            if !self.luna_users.contains(&name) {
                self.luna_users.save(
                    name.clone(),
                    LunaUserDetails { user_name: name.clone(), luna_airdrop_qualified: true, luna_airdrop_reward_amount: 0 },
                );
                let acts = initial_activities(&name);
                proof {
                    lemma_map_vals_saved(self.activities@, as_records(), name@, acts@);
                }
                self.activities.save(name.clone(), acts);
            }
            proof {
                lemma_map_vals_lookup(self.activities@, as_records(), name@);
            }
            let l = match self.activities.get(&name) {
                Some(l) => clone_activities(l),
                None => Vec::new(),
            };
            assert(list_records(l@) == records_of(self.records(), name@));
            let updated = accrue_list(&l, &activity_name, amount);
            proof {
                lemma_map_vals_saved(self.activities@, as_records(), name@, updated@);
            }
            self.activities.save(name, updated);
            i = i + 1;
        }
        assert(user_reward_list@.take(user_reward_list@.len() as int) =~= user_reward_list@);
        Ok(Response::empty())
    }
}

/// Whether the rewards of a list add up to an amount.
fn reward_sum_fits(list: &Vec<UserRewardInfo>) -> (r: bool)
    ensures
        r == (reward_sum(list@) <= u128::MAX),
{
    let mut total: u128 = 0;
    let mut k: usize = 0;
    while k < list.len()
        invariant
            k <= list@.len(),
            total == reward_sum(list@.take(k as int)),
        decreases list@.len() - k,
    {
        proof {
            assert(list@.take(k + 1).drop_last() =~= list@.take(k as int));
            lemma_reward_sum_prefix(list@, k + 1);
        }
        match total.checked_add(list[k].reward_amount) {
            Some(x) => {
                total = x;
            },
            None => {
                return false;
            },
        }
        k = k + 1;
    }
    assert(list@.take(list@.len() as int) =~= list@);
    true
}

/// Whether `amount` can be added to every record of `activity` in a list.
fn accrue_fits_in(l: &Vec<UserActivityDetails>, activity: &String, amount: u128) -> (r: bool)
    ensures
        r == accrue_fits(list_records(l@), activity@, amount),
{
    let mut j: usize = 0;
    while j < l.len()
        invariant
            j <= l@.len(),
            forall|i: int| 0 <= i < j && (#[trigger] list_records(l@)[i]).1 == activity@ ==> list_records(l@)[i].3 + amount <= u128::MAX,
        decreases l@.len() - j,
    {
        assert(list_records(l@)[j as int] == l@[j as int]@);
        if l[j].activity_name.eq(activity) && l[j].activity_reward_amount_accrued.checked_add(amount).is_none() {
            return false;
        }
        j = j + 1;
    }
    true
}

fn clone_luna(d: &LunaUserDetails) -> (r: LunaUserDetails)
    ensures
        r == *d,
{
    LunaUserDetails {
        user_name: d.user_name.clone(),
        luna_airdrop_qualified: d.luna_airdrop_qualified,
        luna_airdrop_reward_amount: d.luna_airdrop_reward_amount,
    }
}

impl Airdrop {
    /// Books the rewards of a list one after the other, as long as each
    /// fits; whether all of them fit.
    fn book_while_fits(&mut self, activity_name: &String, user_reward_list: &Vec<UserRewardInfo>) -> (r: bool)
        requires
            old(self).wf(),
        ensures
            r == booking_fits(old(self).luna_users@, old(self).records(), activity_name@, user_reward_list@),
    {
        let ghost luna0 = self.luna_users@;
        let ghost recs0 = self.records();
        let mut i: usize = 0;
        while i < user_reward_list.len()
            invariant
                i <= user_reward_list@.len(),
                self.wf(),
                luna0 == old(self).luna_users@,
                recs0 == old(self).records(),
                booking_fits(luna0, recs0, activity_name@, user_reward_list@.take(i as int)),
                (self.luna_users@, self.records()) == booked(luna0, recs0, activity_name@, user_reward_list@.take(i as int)),
            decreases user_reward_list@.len() - i,
        {
            proof {
                assert(user_reward_list@.take(i + 1).drop_last() =~= user_reward_list@.take(i as int));
            }
            let name = user_reward_list[i].user_name.clone();
            let amount = user_reward_list[i].reward_amount;
            if !self.luna_users.contains(&name) {
                self.luna_users.save(
                    name.clone(),
                    LunaUserDetails { user_name: name.clone(), luna_airdrop_qualified: true, luna_airdrop_reward_amount: 0 },
                );
                let acts = initial_activities(&name);
                proof {
                    lemma_map_vals_saved(self.activities@, as_records(), name@, acts@);
                }
                self.activities.save(name.clone(), acts);
            }
            proof {
                lemma_map_vals_lookup(self.activities@, as_records(), name@);
            }
            let l = match self.activities.get(&name) {
                Some(l) => clone_activities(l),
                None => Vec::new(),
            };
            assert(list_records(l@) == records_of(self.records(), name@));
            if !accrue_fits_in(&l, activity_name, amount) {
                proof {
                    if booking_fits(luna0, recs0, activity_name@, user_reward_list@) {
                        lemma_booking_fits_prefix(luna0, recs0, activity_name@, user_reward_list@, i + 1);
                    }
                }
                return false;
            }
            let updated = accrue_list(&l, activity_name, amount);
            proof {
                lemma_map_vals_saved(self.activities@, as_records(), name@, updated@);
            }
            self.activities.save(name, updated);
            i = i + 1;
        }
        assert(user_reward_list@.take(user_reward_list@.len() as int) =~= user_reward_list@);
        true
    }

    /// Whether a booking of rewards runs without overflow, as the booking
    /// itself needs.
    pub fn booking_ready(&self, sender: &String, activity_name: &String, user_reward_list: &Vec<UserRewardInfo>) -> (r: bool)
        requires
            self.wf(),
        ensures
            r == (self.config.minting_contract_address@ == sender@ ==> reward_sum(user_reward_list@) <= u128::MAX
                && booking_fits(self.luna_users@, self.records(), activity_name@, user_reward_list@)),
    {
        if !self.config.minting_contract_address.eq(sender) {
            return true;
        }
        if !reward_sum_fits(user_reward_list) {
            return false;
        }
        let mut scratch = Airdrop {
            config: Config {
                admin_address: self.config.admin_address.clone(),
                minting_contract_address: self.config.minting_contract_address.clone(),
            },
            luna_users: self.luna_users.duplicate(|d: &LunaUserDetails| -> (c: LunaUserDetails)
                ensures
                    c@ == d@,
                { clone_luna(d) }),
            activities: self.activities.duplicate(|l: &Vec<UserActivityDetails>| -> (c: Vec<UserActivityDetails>)
                ensures
                    c@ == l@,
                { clone_activities(l) }),
        };
        assert(scratch.records() == self.records());
        scratch.book_while_fits(activity_name, user_reward_list)
    }

    /// Whether the rewards accrued over a user's activities add up to an amount.
    pub fn rewards_summable(&self, user_name: &String) -> (r: bool)
        requires
            self.wf(),
        ensures
            r == (accrued_total(records_of(self.records(), user_name@)) <= u128::MAX),
    {
        proof {
            lemma_map_vals_lookup(self.activities@, as_records(), user_name@);
        }
        let l = match self.activities.get(user_name) {
            Some(l) => l,
            None => {
                return true;
            },
        };
        let ghost recs = list_records(l@);
        assert(recs == records_of(self.records(), user_name@));
        let mut total: u128 = 0;
        let mut j: usize = 0;
        while j < l.len()
            invariant
                j <= l@.len(),
                recs == list_records(l@),
                recs == records_of(self.records(), user_name@),
                total == accrued_total(recs.take(j as int)),
            decreases l@.len() - j,
        {
            proof {
                assert(recs.take(j + 1).drop_last() =~= recs.take(j as int));
                lemma_accrued_total_prefix(recs, j + 1);
                assert(recs[j as int] == l@[j as int]@);
            }
            match total.checked_add(l[j].activity_reward_amount_accrued) {
                Some(x) => {
                    total = x;
                },
                None => {
                    return false;
                },
            }
            j = j + 1;
        }
        assert(recs.take(recs.len() as int) =~= recs);
        true
    }
}

impl Airdrop {
    /// A user claims every reward accrued over the user's activities: they are
    /// set to nothing and their total is sent to the user.
    pub fn claim_user_rewards(&mut self, sender: &String, user_name: String) -> (r: Result<Response, AirdropError>)
        requires
            old(self).wf(),
            user_name@ == sender@ ==> accrued_total(records_of(old(self).records(), user_name@)) <= u128::MAX,
        ensures
            final(self).wf(),
            user_name@ != sender@ ==> r == Err::<Response, AirdropError>(AirdropError::Unauthorized) && *final(self)
                == *old(self),
            user_name@ == sender@ ==> ({
                let l = records_of(old(self).records(), user_name@);
                if accrued_total(l) == 0 {
                    r == Err::<Response, AirdropError>(AirdropError::NoRewardForUser) && *final(self) == *old(self)
                } else {
                    &&& r matches Ok(resp) && payout_response(
                        resp,
                        old(self).config.minting_contract_address,
                        user_name,
                        accrued_total(l) as u128,
                        "reward"@,
                        false,
                    )
                    &&& final(self).config == old(self).config
                    &&& final(self).luna_users == old(self).luna_users
                    &&& final(self).records() == saved(old(self).records(), user_name@, cleared(l))
                }
            }),
    {
        if !user_name.eq(sender) {
            return Err(AirdropError::Unauthorized);
        }
        proof {
            lemma_map_vals_lookup(self.activities@, as_records(), user_name@);
        }
        let l = match self.activities.get(&user_name) {
            Some(l) => clone_activities(l),
            None => Vec::new(),
        };
        let ghost recs = list_records(l@);
        assert(recs == records_of(self.records(), user_name@));
        let mut total: u128 = 0;
        let mut updated: Vec<UserActivityDetails> = Vec::new();
        let mut j: usize = 0;
        while j < l.len()
            invariant
                j <= l@.len(),
                recs == list_records(l@),
                accrued_total(recs) <= u128::MAX,
                total == accrued_total(recs.take(j as int)),
                list_records(updated@) == cleared(recs).take(j as int),
            decreases l@.len() - j,
        {
            proof {
                assert(recs.take(j + 1).drop_last() =~= recs.take(j as int));
                lemma_accrued_total_prefix(recs, j + 1);
                assert(recs[j as int] == l@[j as int]@);
            }
            let mut a = clone_activity(&l[j]);
            if a.activity_reward_amount_accrued > 0 {
                total = total + a.activity_reward_amount_accrued;
                a.activity_reward_amount_accrued = 0;
            }
            let ghost u0 = updated@;
            let ghost av = a@;
            updated.push(a);
            assert(list_records(updated@) =~= list_records(u0).push(av));
            assert(list_records(updated@) =~= cleared(recs).take(j + 1));
            j = j + 1;
        }
        assert(recs.take(recs.len() as int) =~= recs);
        assert(list_records(updated@) =~= cleared(recs));
        if total == 0 {
            return Err(AirdropError::NoRewardForUser);
        }
        proof {
            lemma_map_vals_saved(self.activities@, as_records(), user_name@, updated@);
        }
        self.activities.save(user_name.clone(), updated);
        Ok(payout(self.config.minting_contract_address.clone(), user_name, total, "reward", false))
    }

    /// The rewards accrued over a user's activities.
    pub fn query_user_rewards(&self, user_name: &String) -> (r: u128)
        requires
            self.wf(),
            accrued_total(records_of(self.records(), user_name@)) <= u128::MAX,
        ensures
            r == accrued_total(records_of(self.records(), user_name@)),
    {
        proof {
            lemma_map_vals_lookup(self.activities@, as_records(), user_name@);
        }
        let l = match self.activities.get(user_name) {
            Some(l) => l,
            None => {
                assert(records_of(self.records(), user_name@) =~= Seq::<ActivityRecord>::empty());
                return 0;
            },
        };
        let ghost recs = list_records(l@);
        let mut total: u128 = 0;
        let mut j: usize = 0;
        while j < l.len()
            invariant
                j <= l@.len(),
                recs == list_records(l@),
                accrued_total(recs) <= u128::MAX,
                total == accrued_total(recs.take(j as int)),
            decreases l@.len() - j,
        {
            proof {
                assert(recs.take(j + 1).drop_last() =~= recs.take(j as int));
                lemma_accrued_total_prefix(recs, j + 1);
                assert(recs[j as int] == l@[j as int]@);
            }
            if l[j].activity_reward_amount_accrued > 0 {
                total = total + l[j].activity_reward_amount_accrued;
            }
            j = j + 1;
        }
        assert(recs.take(recs.len() as int) =~= recs);
        total
    }

    /// A user's luna record.
    pub fn query_luna_user_details(&self, user_name: &String) -> (r: Result<LunaUserDetails, AirdropError>)
        requires
            self.wf(),
        ensures
            match lookup(self.luna_users@, user_name@) {
                Some(v) => r matches Ok(d) && d@ == v,
                None => r == Err::<LunaUserDetails, AirdropError>(AirdropError::NoLunaUserDetails),
            },
    {
        match self.luna_users.get(user_name) {
            Some(d) => Ok(LunaUserDetails {
                user_name: d.user_name.clone(),
                luna_airdrop_qualified: d.luna_airdrop_qualified,
                luna_airdrop_reward_amount: d.luna_airdrop_reward_amount,
            }),
            None => Err(AirdropError::NoLunaUserDetails),
        }
    }

    /// A user's activities.
    pub fn query_airdrop_activity_details(&self, user_name: &String) -> (r: Result<Vec<UserActivityDetails>, AirdropError>)
        requires
            self.wf(),
        ensures
            match lookup(self.records(), user_name@) {
                Some(l) => r matches Ok(v) && list_records(v@) == l,
                None => r == Err::<Vec<UserActivityDetails>, AirdropError>(AirdropError::NoActivityDetails),
            },
    {
        proof {
            lemma_map_vals_lookup(self.activities@, as_records(), user_name@);
        }
        match self.activities.get(user_name) {
            Some(l) => Ok(clone_activities(l)),
            None => Err(AirdropError::NoActivityDetails),
        }
    }

    /// Every activity of every user, user by user in key order.
    pub fn query_all_user_activities(&self) -> (r: Vec<UserActivityDetails>)
        ensures
            list_records(r@) == all_records(self.records()),
    {
        let ghost t = self.records();
        let mut r: Vec<UserActivityDetails> = Vec::new();
        let mut i: usize = 0;
        while i < self.activities.len()
            invariant
                i <= self.activities@.len(),
                t == self.records(),
                list_records(r@) == all_records(t.take(i as int)),
            decreases self.activities@.len() - i,
        {
            let l = self.activities.val_at(i);
            assert(t[i as int].1 == list_records(l@));
            let ghost r0 = list_records(r@);
            let mut j: usize = 0;
            while j < l.len()
                invariant
                    j <= l@.len(),
                    list_records(r@) == r0 + list_records(l@).take(j as int),
                decreases l@.len() - j,
            {
                let a = clone_activity(&l[j]);
                let ghost rr = r@;
                r.push(a);
                assert(list_records(r@) =~= list_records(rr).push(l@[j as int]@));
                assert(list_records(r@) =~= r0 + list_records(l@).take(j + 1));
                j = j + 1;
            }
            assert(list_records(l@).take(l@.len() as int) =~= list_records(l@));
            assert(t.take(i + 1).drop_last() =~= t.take(i as int));
            i = i + 1;
        }
        assert(t.take(t.len() as int) =~= t);
        r
    }
}

/// The command carried by tokens sent to the contract: book rewards on an activity.
pub struct UpdateActivityRewardForUsersCommand {
    pub activity_name: String,
    pub user_reward_list: Vec<UserRewardInfo>,
}

/// What tokens sent to the contract are for.
pub enum ReceivedMsg {
    UpdateActivityRewardForUsers(UpdateActivityRewardForUsersCommand),
}

impl Airdrop {
    /// Tokens received from the token contract, with the command that came along.
    pub fn received_message(&mut self, sender: &String, amount: u128, msg: ReceivedMsg) -> (r: Result<Response, AirdropError>)
        requires
            old(self).wf(),
            msg matches ReceivedMsg::UpdateActivityRewardForUsers(c) ==> (old(self).config.minting_contract_address@
                == sender@ ==> reward_sum(c.user_reward_list@) <= u128::MAX && booking_fits(
                old(self).luna_users@,
                old(self).records(),
                c.activity_name@,
                c.user_reward_list@,
            )),
        ensures
            final(self).wf(),
            msg matches ReceivedMsg::UpdateActivityRewardForUsers(c) ==> ({
                &&& old(self).config.minting_contract_address@ != sender@ ==> r == Err::<Response, AirdropError>(
                    AirdropError::Unauthorized,
                ) && *final(self) == *old(self)
                &&& old(self).config.minting_contract_address@ == sender@ && reward_sum(c.user_reward_list@) != amount
                    ==> r == Err::<Response, AirdropError>(AirdropError::RewardTotalMismatch) && *final(self) == *old(self)
                &&& old(self).config.minting_contract_address@ == sender@ && reward_sum(c.user_reward_list@) == amount
                    ==> r is Ok && final(self).config == old(self).config && (final(self).luna_users@, final(self).records())
                    == booked(old(self).luna_users@, old(self).records(), c.activity_name@, c.user_reward_list@)
            }),
    {
        match msg {
            ReceivedMsg::UpdateActivityRewardForUsers(c) => self.update_activity_reward_for_users(
                sender,
                c.activity_name,
                c.user_reward_list,
                amount,
            ),
        }
    }
}

} // verus!
