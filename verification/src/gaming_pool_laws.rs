//! Properties of the gaming pool that span several calls.
use vstd::prelude::*;
use crate::gaming_pool::{
    GameDetails, GameError, GamingPool, PoolDetails, PoolTeamDetails, PoolTypeDetails, claim_fold, lemma_refund_fold_prefix, refund_fold,
    refund_list, claimable, claimable_sum,
    claimable_total, claimed_list, claimed_team, game_status, teams_of, GAME_CANCELLED, GAME_COMPLETED,
    GAME_POOL_CLOSED, GAME_POOL_OPEN, GameResult, WalletPercentage, WalletTransferDetails, percent_of, rake_transfers, winners_total,
};
use crate::amounts::mul_or_zero;
use crate::table::{
    has_key, key_lt, lemma_key_lt_irreflexive, lemma_key_pos_unique, lemma_saved_lookup_other,
    lemma_saved_lookup_same, lemma_saved_sorted, lookup, saved, sorted_keys,
};

verus! {

/// A claimed list holds nothing more for the same claim.
pub proof fn lemma_claimed_list_empty(l: Seq<PoolTeamDetails>, gamer: Seq<char>, refund: bool)
    ensures
        claimable_sum(claimed_list(l, gamer, refund), gamer, refund) == 0,
    decreases l.len(),
{
    if l.len() > 0 {
        let c = claimed_list(l, gamer, refund);
        assert(c.drop_last() =~= claimed_list(l.drop_last(), gamer, refund));
        lemma_claimed_list_empty(l.drop_last(), gamer, refund);
        assert(!claimable(c.last(), gamer, refund));
    }
}

/// The team lists stay sorted through a claim.
pub proof fn lemma_claim_fold_sorted(
    t: Seq<(Seq<char>, Seq<PoolTeamDetails>)>,
    ps: Seq<(Seq<char>, PoolDetails)>,
    n: nat,
    gamer: Seq<char>,
    refund: bool,
)
    requires
        sorted_keys(t),
    ensures
        sorted_keys(claim_fold(t, ps, n, gamer, refund)),
    decreases n,
{
    if n > 0 {
        lemma_claim_fold_sorted(t, ps, (n - 1) as nat, gamer, refund);
        let prev = claim_fold(t, ps, (n - 1) as nat, gamer, refund);
        let k = ps[n - 1].0;
        lemma_saved_sorted(prev, k, claimed_list(teams_of(prev, k), gamer, refund));
    }
}

/// After a claim has gone through the first `n` pools, the list of pool `i < n`
/// is its list from before the claim, claimed; the lists of later pools are untouched.
pub proof fn lemma_claim_fold_lookup(
    t: Seq<(Seq<char>, Seq<PoolTeamDetails>)>,
    ps: Seq<(Seq<char>, PoolDetails)>,
    n: nat,
    gamer: Seq<char>,
    refund: bool,
    i: int,
)
    requires
        sorted_keys(t),
        sorted_keys(ps),
        n <= ps.len(),
        0 <= i < ps.len(),
    ensures
        i < n ==> teams_of(claim_fold(t, ps, n, gamer, refund), ps[i].0) == claimed_list(teams_of(t, ps[i].0), gamer, refund),
        i >= n ==> lookup(claim_fold(t, ps, n, gamer, refund), ps[i].0) == lookup(t, ps[i].0),
    decreases n,
{
    if n > 0 {
        let m = (n - 1) as nat;
        let prev = claim_fold(t, ps, m, gamer, refund);
        let k = ps[m as int].0;
        lemma_claim_fold_sorted(t, ps, m, gamer, refund);
        lemma_claim_fold_lookup(t, ps, m, gamer, refund, i);
        let v = claimed_list(teams_of(prev, k), gamer, refund);
        if i == m {
            lemma_claim_fold_lookup(t, ps, m, gamer, refund, m as int);
            lemma_saved_lookup_same(prev, k, v);
        } else {
            if i < m {
                assert(key_lt(ps[i].0, ps[m as int].0));
            } else {
                assert(key_lt(ps[m as int].0, ps[i].0));
            }
            lemma_key_lt_irreflexive(k);
            lemma_saved_lookup_other(prev, k, v, ps[i].0);
        }
    }
}

proof fn lemma_claimable_total_zero(
    f: Seq<(Seq<char>, Seq<PoolTeamDetails>)>,
    t: Seq<(Seq<char>, Seq<PoolTeamDetails>)>,
    ps: Seq<(Seq<char>, PoolDetails)>,
    m: int,
    gamer: Seq<char>,
    refund: bool,
)
    requires
        0 <= m <= ps.len(),
        forall|i: int| 0 <= i < ps.len() ==> #[trigger] teams_of(f, ps[i].0) == claimed_list(teams_of(t, ps[i].0), gamer, refund),
    ensures
        claimable_total(f, ps.take(m), gamer, refund) == 0,
    decreases m,
{
    if m > 0 {
        assert(ps.take(m).drop_last() =~= ps.take(m - 1));
        lemma_claimable_total_zero(f, t, ps, m - 1, gamer, refund);
        assert(ps.take(m).last() == ps[m - 1]);
        assert(teams_of(f, ps[m - 1].0) == claimed_list(teams_of(t, ps[m - 1].0), gamer, refund));
        lemma_claimed_list_empty(teams_of(t, ps[m - 1].0), gamer, refund);
    }
}

/// A claim collects everything: right after a gamer's claim of rewards (or of
/// refunds), nothing more stands to be collected for them, so a second claim
/// is refused.
pub proof fn law_claim_leaves_nothing(s: GamingPool, gamer: Seq<char>, refund: bool)
    requires
        s.wf(),
    ensures
        claimable_total(claim_fold(s.pool_teams@, s.pools@, s.pools@.len(), gamer, refund), s.pools@, gamer, refund) == 0,
{
    let t = s.pool_teams@;
    let ps = s.pools@;
    let f = claim_fold(t, ps, ps.len(), gamer, refund);
    assert forall|i: int| 0 <= i < ps.len() implies #[trigger] teams_of(f, ps[i].0) == claimed_list(teams_of(t, ps[i].0), gamer, refund) by {
        lemma_claim_fold_lookup(t, ps, ps.len(), gamer, refund, i);
    }
    lemma_claimable_total_zero(f, t, ps, ps.len() as int, gamer, refund);
    assert(ps.take(ps.len() as int) =~= ps);
}

/// A pool is settled once: after a distribution for a pool has gone through,
/// the admin's second distribution for that pool is refused as already done.
pub proof fn law_distribution_once(s1: GamingPool, s2: GamingPool, sender: String, game_id: String, pool_id: String, winners: Seq<crate::gaming_pool::GameResult>, winners2: Seq<crate::gaming_pool::GameResult>)
    requires
        s1.wf(),
        s1.distribute_error(sender, game_id@, pool_id@, winners).is_none(),
        s2.same_but_results(&s1),
        s2.games@ == saved(s1.games@, game_id@, GameDetails { game_id, game_status: GAME_COMPLETED }),
        s2.pools@ == saved(
            s1.pools@,
            pool_id@,
            PoolDetails {
                game_id,
                pool_id,
                pool_type: lookup(s1.pools@, pool_id@).unwrap().pool_type,
                current_teams_count: lookup(s1.pools@, pool_id@).unwrap().current_teams_count,
                rewards_distributed: true,
            },
        ),
    ensures
        s2.distribute_error(sender, game_id@, pool_id@, winners2) == Some(GameError::RewardsAlreadyDistributed),
{
    let p = lookup(s1.pools@, pool_id@).unwrap();
    lemma_saved_lookup_same(s1.games@, game_id@, GameDetails { game_id, game_status: GAME_COMPLETED });
    lemma_saved_lookup_same(
        s1.pools@,
        pool_id@,
        PoolDetails {
            game_id,
            pool_id,
            pool_type: p.pool_type,
            current_teams_count: p.current_teams_count,
            rewards_distributed: true,
        },
    );
}

/// A game ends once: after a cancel has gone through, the admin's second cancel
/// is refused, and so is any bid on the game.
pub proof fn law_cancel_closes_game(s1: GamingPool, s2: GamingPool, sender: String, game_id: String, bidder: String, gamer: Seq<char>, pool_type: Seq<char>, pool_id: Seq<char>, amount: u128)
    requires
        s1.wf(),
        s1.end_game_error(sender, game_id@, false).is_none(),
        s2.same_but_refunds(&s1),
        s2.games@ == saved(s1.games@, game_id@, GameDetails { game_id, game_status: GAME_CANCELLED }),
        s2.config.minting_contract_address@ == bidder@,
    ensures
        s2.end_game_error(sender, game_id@, false) == Some(GameError::CancelCancelledGame),
        s2.bid_error(bidder, gamer, pool_type, pool_id, game_id@, amount) == Some(GameError::GameNotOpen),
{
    lemma_saved_lookup_same(s1.games@, game_id@, GameDetails { game_id, game_status: GAME_CANCELLED });
}

/// A lock closes the game once: after a lock has gone through, the admin's
/// second lock is refused, and so is any bid on the game.
pub proof fn law_lock_closes_game(s1: GamingPool, s2: GamingPool, sender: String, game_id: String, bidder: String, gamer: Seq<char>, pool_type: Seq<char>, pool_id: Seq<char>, amount: u128)
    requires
        s1.wf(),
        s1.end_game_error(sender, game_id@, true).is_none(),
        s2.same_but_refunds(&s1),
        s2.games@ == saved(s1.games@, game_id@, GameDetails { game_id, game_status: GAME_POOL_CLOSED }),
        s2.config.minting_contract_address@ == bidder@,
    ensures
        s2.end_game_error(sender, game_id@, true) == Some(GameError::LockNotOpenGame),
        s2.bid_error(bidder, gamer, pool_type, pool_id, game_id@, amount) == Some(GameError::GameNotOpen),
{
    lemma_saved_lookup_same(s1.games@, game_id@, GameDetails { game_id, game_status: GAME_POOL_CLOSED });
}

/// Where among the first `n` pools the pool of key `c` stands, if it does.
pub open spec fn pool_at(pools: Seq<(Seq<char>, PoolDetails)>, n: int, c: Seq<char>) -> int {
    choose|i: int| 0 <= i < n && #[trigger] pools[i].0 == c
}

/// The team list of key `c` once the refunds of the first `n` pools were
/// booked: a pool among them that is refunded (with `only_short`, one with
/// fewer teams than its type's minimum) has each team's refund set to pool
/// fee plus platform fee, to collect; every other list is as it was.
pub open spec fn refunded_teams(
    t: Seq<(Seq<char>, Seq<PoolTeamDetails>)>,
    pools: Seq<(Seq<char>, PoolDetails)>,
    types: Seq<(Seq<char>, PoolTypeDetails)>,
    platform_fee: u128,
    n: int,
    only_short: bool,
    c: Seq<char>,
) -> Seq<PoolTeamDetails> {
    if exists|i: int| 0 <= i < n && #[trigger] pools[i].0 == c {
        let pool = pools[pool_at(pools, n, c)].1;
        let pt = lookup(types, pool.pool_type@).unwrap();
        if only_short && pool.current_teams_count >= pt.min_teams_for_pool {
            teams_of(t, c)
        } else {
            refund_list(teams_of(t, c), (pt.pool_fee + platform_fee) as u128)
        }
    } else {
        teams_of(t, c)
    }
}

/// What booking the refunds of the first `n` pools does to each team list.
pub proof fn lemma_refund_fold_teams(
    t: Seq<(Seq<char>, Seq<PoolTeamDetails>)>,
    f: Seq<(Seq<char>, u128)>,
    pools: Seq<(Seq<char>, PoolDetails)>,
    types: Seq<(Seq<char>, PoolTypeDetails)>,
    platform_fee: u128,
    n: nat,
    only_short: bool,
    c: Seq<char>,
)
    requires
        sorted_keys(t),
        sorted_keys(pools),
        n <= pools.len(),
        refund_fold(t, f, pools, types, platform_fee, n, only_short).is_some(),
    ensures
        sorted_keys(refund_fold(t, f, pools, types, platform_fee, n, only_short).unwrap().0),
        teams_of(refund_fold(t, f, pools, types, platform_fee, n, only_short).unwrap().0, c) == refunded_teams(
            t,
            pools,
            types,
            platform_fee,
            n as int,
            only_short,
            c,
        ),
    decreases n,
{
    if n > 0 {
        let m = (n - 1) as nat;
        lemma_refund_fold_prefix(t, f, pools, types, platform_fee, m, n, only_short);
        let k = pools[m as int].0;
        lemma_refund_fold_teams(t, f, pools, types, platform_fee, m, only_short, c);
        lemma_refund_fold_teams(t, f, pools, types, platform_fee, m, only_short, k);
        let r1 = refund_fold(t, f, pools, types, platform_fee, m, only_short).unwrap();
        // the key of pool `m` is none of the earlier pools' keys
        assert forall|i: int| 0 <= i < m implies #[trigger] pools[i].0 != k by {
            assert(key_lt(pools[i].0, pools[m as int].0));
            lemma_key_lt_irreflexive(k);
        }
        assert(!(exists|i: int| 0 <= i < m && #[trigger] pools[i].0 == k));
        assert(teams_of(r1.0, k) == teams_of(t, k));
        if c == k {
            assert(pools[m as int].0 == c);
            let i = pool_at(pools, n as int, c);
            assert(0 <= i < n && pools[i].0 == c);
            assert(i == m) by {
                if i < m {
                    assert(pools[i].0 != k);
                }
            }
        } else {
            if exists|i: int| 0 <= i < n && #[trigger] pools[i].0 == c {
                let i = pool_at(pools, n as int, c);
                assert(0 <= i < n && pools[i].0 == c);
                assert(i < m);
                assert(exists|j: int| 0 <= j < m && #[trigger] pools[j].0 == c);
                let j = pool_at(pools, m as int, c);
                assert(0 <= j < m && pools[j].0 == c);
                assert(i == j) by {
                    if i < j {
                        assert(key_lt(pools[i].0, pools[j].0));
                        lemma_key_lt_irreflexive(c);
                    } else if j < i {
                        assert(key_lt(pools[j].0, pools[i].0));
                        lemma_key_lt_irreflexive(c);
                    }
                }
                assert(refunded_teams(t, pools, types, platform_fee, n as int, only_short, c) == refunded_teams(
                    t,
                    pools,
                    types,
                    platform_fee,
                    m as int,
                    only_short,
                    c,
                ));
            } else {
                assert(!(exists|j: int| 0 <= j < m && #[trigger] pools[j].0 == c)) by {
                    if exists|j: int| 0 <= j < m && #[trigger] pools[j].0 == c {
                        let j = choose|j: int| 0 <= j < m && #[trigger] pools[j].0 == c;
                        assert(0 <= j < n && pools[j].0 == c);
                    }
                }
                assert(refunded_teams(t, pools, types, platform_fee, n as int, only_short, c) == teams_of(t, c));
                assert(refunded_teams(t, pools, types, platform_fee, m as int, only_short, c) == teams_of(t, c));
            }
        }
        let pool = pools[m as int].1;
        let pt = lookup(types, pool.pool_type@).unwrap();
        let r = refund_fold(t, f, pools, types, platform_fee, n, only_short).unwrap();
        let old_c = refunded_teams(t, pools, types, platform_fee, m as int, only_short, c);
        let new_c = refunded_teams(t, pools, types, platform_fee, n as int, only_short, c);
        if only_short && pool.current_teams_count >= pt.min_teams_for_pool {
            assert(r == r1);
            if c == k {
                assert(new_c == teams_of(t, c));
                assert(old_c == teams_of(t, c));
            } else {
                assert(new_c == old_c);
            }
        } else {
            let nl = refund_list(teams_of(r1.0, k), (pt.pool_fee + platform_fee) as u128);
            assert(r.0 == saved(r1.0, k, nl));
            lemma_saved_sorted(r1.0, k, nl);
            lemma_saved_lookup_same(r1.0, k, nl);
            if c != k {
                lemma_saved_lookup_other(r1.0, k, nl, c);
                assert(new_c == old_c);
            } else {
                assert(new_c == refund_list(teams_of(t, c), (pt.pool_fee + platform_fee) as u128));
            }
        }
    }
}

/// A lock refunds exactly the pools short of their minimum of teams: each
/// team of such a pool is to collect pool fee plus platform fee, every
/// other team list is left as it was.
pub proof fn law_lock_refunds_short_pools(s: GamingPool, c: Seq<char>)
    requires
        s.wf(),
        s.refunds(true).is_some(),
    ensures
        teams_of(s.refunds(true).unwrap().0, c) == refunded_teams(
            s.pool_teams@,
            s.pools@,
            s.pool_types@,
            s.config.platform_fee,
            s.pools@.len() as int,
            true,
            c,
        ),
{
    lemma_refund_fold_teams(
        s.pool_teams@,
        s.gaming_funds@,
        s.pools@,
        s.pool_types@,
        s.config.platform_fee,
        s.pools@.len(),
        true,
        c,
    );
}

/// The sum of the amounts of a list of payouts.
pub open spec fn payouts_total(d: Seq<WalletTransferDetails>) -> nat
    decreases d.len(),
{
    if d.len() == 0 {
        0
    } else {
        payouts_total(d.drop_last()) + d.last().amount as nat
    }
}

/// The sum of the percentages of a list of wallets.
pub open spec fn percentages_total(rl: Seq<WalletPercentage>) -> nat
    decreases rl.len(),
{
    if rl.len() == 0 {
        0
    } else {
        percentages_total(rl.drop_last()) + rl.last().percentage as nat
    }
}

/// A percentage of an amount, rounded down, never exceeds the exact share.
proof fn lemma_percent_of_below(total: u128, percentage: u32)
    ensures
        percent_of(total, percentage) * 100 <= total * percentage,
{
    if total * percentage <= u128::MAX {
        let x = total * percentage;
        assert((x / 100) * 100 <= x) by (nonlinear_arith);
    } else {
        assert(0 <= total * percentage) by (nonlinear_arith);
    }
}

/// Paying `rake` out by percentages pays at most the exact shares together.
proof fn lemma_rake_transfers_total(rl: Seq<WalletPercentage>, rake: u128)
    ensures
        payouts_total(rake_transfers(rl, rake)) * 100 <= rake * percentages_total(rl),
    decreases rl.len(),
{
    if rl.len() > 0 {
        let d = rake_transfers(rl, rake);
        assert(d.drop_last() =~= rake_transfers(rl.drop_last(), rake));
        lemma_rake_transfers_total(rl.drop_last(), rake);
        lemma_percent_of_below(rake, rl.last().percentage);
        let a = payouts_total(rake_transfers(rl.drop_last(), rake));
        let p = percentages_total(rl.drop_last());
        let c = rl.last().percentage as nat;
        assert(d.last().amount == percent_of(rake, rl.last().percentage));
        assert(rake * (p + c) == rake * p + rake * c) by (nonlinear_arith);
        assert((a + d.last().amount) * 100 == a * 100 + d.last().amount * 100) by (nonlinear_arith);
    }
}

/// A distribution that goes ahead pays the rake wallets what the winners
/// leave of the pool: the pool takes in pool fee times team count, the rake
/// is that minus the winners' rewards, and each rake wallet gets its
/// percentage of the rake (rounded down), after the platform wallets' shares.
/// Where the rake percentages add up to at most a hundred, the rake paid and
/// the winners' rewards together stay within what the pool took in.
pub proof fn law_rake_is_what_the_winners_leave(
    g: GamingPool,
    sender: String,
    game_id: Seq<char>,
    pool_id: Seq<char>,
    winners: Seq<GameResult>,
)
    requires
        g.distribute_error(sender, game_id, pool_id, winners).is_none(),
    ensures
        ({
            let p = lookup(g.pools@, pool_id).unwrap();
            let t = lookup(g.pool_types@, p.pool_type@).unwrap();
            let taken_in = t.pool_fee * p.current_teams_count;
            let left = taken_in - winners_total(winners);
            let rl = t.rake_list@;
            let n = g.platform_wallets@.len();
            let d = g.distribution_transfers(pool_id, winners);
            &&& 0 < left <= taken_in <= u128::MAX
            &&& d.len() == n + rl.len()
            &&& forall|i: int|
                0 <= i < rl.len() ==> {
                    &&& #[trigger] d[n + i].wallet_address == rl[i].wallet_address
                    &&& d[n + i].amount * 100 <= left * rl[i].percentage
                    &&& left * rl[i].percentage <= u128::MAX ==> d[n + i].amount == left * rl[i].percentage / 100
                }
            &&& percentages_total(rl) <= 100 ==> payouts_total(d.subrange(n as int, d.len() as int)) + winners_total(winners)
                <= taken_in
        }),
{
    let p = lookup(g.pools@, pool_id).unwrap();
    let t = lookup(g.pool_types@, p.pool_type@).unwrap();
    let taken_in = t.pool_fee * p.current_teams_count;
    assert(g.pool_total(pool_id) == mul_or_zero(t.pool_fee, p.current_teams_count as u128));
    assert(taken_in <= u128::MAX);
    let left = taken_in - winners_total(winners);
    let rake = (g.pool_total(pool_id) - winners_total(winners)) as u128;
    assert(rake == left);
    let rl = t.rake_list@;
    let n = g.platform_wallets@.len();
    let d = g.distribution_transfers(pool_id, winners);
    let r = rake_transfers(rl, rake);
    assert(d.subrange(n as int, d.len() as int) =~= r);
    assert forall|i: int| 0 <= i < rl.len() implies {
        &&& #[trigger] d[n + i].wallet_address == rl[i].wallet_address
        &&& d[n + i].amount * 100 <= left * rl[i].percentage
        &&& left * rl[i].percentage <= u128::MAX ==> d[n + i].amount == left * rl[i].percentage / 100
    } by {
        assert(d[n + i] == r[i]);
        lemma_percent_of_below(rake, rl[i].percentage);
    }
    if percentages_total(rl) <= 100 {
        lemma_rake_transfers_total(rl, rake);
        let a = payouts_total(r);
        let pt = percentages_total(rl);
        assert(rake * pt <= rake * 100) by (nonlinear_arith)
            requires
                pt <= 100,
        ;
        assert(a <= rake);
    }
}

} // verus!
