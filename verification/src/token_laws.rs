//! Properties of the token that hold of every transfer, mint and burn, and
//! of the balances it starts with.
use vstd::prelude::*;
use crate::table::{has_key, insert_pos, key_pos, lemma_insert_pos_exists, lemma_key_pos_unique, lemma_saved_sorted, lookup, saved, sorted_keys};
use crate::token::{Cw20Coin, balance_of, moved};
use crate::token_setup::{accounts_saved, coins_total};

verus! {

/// All balances, summed.
pub open spec fn balances_total(t: Seq<(Seq<char>, u128)>) -> nat
    decreases t.len(),
{
    if t.len() == 0 {
        0
    } else {
        balances_total(t.drop_last()) + t.last().1 as nat
    }
}

pub proof fn lemma_total_update(t: Seq<(Seq<char>, u128)>, i: int, e: (Seq<char>, u128))
    requires
        0 <= i < t.len(),
    ensures
        balances_total(t.update(i, e)) == balances_total(t) - t[i].1 + e.1,
    decreases t.len(),
{
    let u = t.update(i, e);
    if i < t.len() - 1 {
        assert(u.drop_last() =~= t.drop_last().update(i, e));
        lemma_total_update(t.drop_last(), i, e);
    } else {
        assert(u.drop_last() =~= t.drop_last());
    }
}

pub proof fn lemma_total_insert(t: Seq<(Seq<char>, u128)>, i: int, e: (Seq<char>, u128))
    requires
        0 <= i <= t.len(),
    ensures
        balances_total(t.insert(i, e)) == balances_total(t) + e.1,
    decreases t.len(),
{
    let u = t.insert(i, e);
    if i == t.len() {
        assert(u.drop_last() =~= t);
    } else {
        assert(u.drop_last() =~= t.drop_last().insert(i, e));
        lemma_total_insert(t.drop_last(), i, e);
    }
}

/// A save replaces one balance: the total changes by the difference.
pub proof fn lemma_total_saved(t: Seq<(Seq<char>, u128)>, k: Seq<char>, v: u128)
    requires
        sorted_keys(t),
    ensures
        balances_total(saved(t, k, v)) == balances_total(t) - balance_of(t, k) + v,
{
    if has_key(t, k) {
        let p = key_pos(t, k);
        lemma_total_update(t, p, (k, v));
    } else {
        lemma_insert_pos_exists(t, k);
        lemma_total_insert(t, insert_pos(t, k), (k, v));
    }
}

/// A transfer, a send or a distribution moves tokens between balances and
/// leaves their total as it was.
pub proof fn law_move_keeps_total(t: Seq<(Seq<char>, u128)>, from: Seq<char>, to: Seq<char>, amount: u128)
    requires
        sorted_keys(t),
        balance_of(t, from) >= amount,
        from == to || balance_of(t, to) + amount <= u128::MAX,
    ensures
        balances_total(moved(t, from, to, amount)) == balances_total(t),
{
    let t1 = saved(t, from, (balance_of(t, from) - amount) as u128);
    lemma_total_saved(t, from, (balance_of(t, from) - amount) as u128);
    lemma_saved_sorted(t, from, (balance_of(t, from) - amount) as u128);
    if from == to {
        crate::table::lemma_saved_lookup_same(t, from, (balance_of(t, from) - amount) as u128);
    } else {
        crate::table::lemma_saved_lookup_other(t, from, (balance_of(t, from) - amount) as u128, to);
    }
    lemma_total_saved(t1, to, (balance_of(t1, to) + amount) as u128);
}

/// A transfer takes `amount` off the sender and adds it to the recipient;
/// every other balance stays as it was.
pub proof fn law_move_changes_only_the_two(t: Seq<(Seq<char>, u128)>, from: Seq<char>, to: Seq<char>, amount: u128, w: Seq<char>)
    requires
        sorted_keys(t),
        balance_of(t, from) >= amount,
        from == to || balance_of(t, to) + amount <= u128::MAX,
    ensures
        sorted_keys(moved(t, from, to, amount)),
        balance_of(moved(t, from, to, amount), w) == if from == to {
            balance_of(t, w) as int
        } else if w == from {
            balance_of(t, from) - amount
        } else if w == to {
            balance_of(t, to) + amount
        } else {
            balance_of(t, w) as int
        },
{
    let t1 = saved(t, from, (balance_of(t, from) - amount) as u128);
    lemma_saved_sorted(t, from, (balance_of(t, from) - amount) as u128);
    crate::table::lemma_saved_lookup_same(t, from, (balance_of(t, from) - amount) as u128);
    if w != from {
        crate::table::lemma_saved_lookup_other(t, from, (balance_of(t, from) - amount) as u128, w);
    }
    if to != from {
        crate::table::lemma_saved_lookup_other(t, from, (balance_of(t, from) - amount) as u128, to);
    }
    let v = (balance_of(t1, to) + amount) as u128;
    lemma_saved_sorted(t1, to, v);
    crate::table::lemma_saved_lookup_same(t1, to, v);
    if w != to {
        crate::table::lemma_saved_lookup_other(t1, to, v, w);
    }
}

/// A transfer that the recipient sends straight back leaves every balance
/// as it was.
pub proof fn law_move_undone(t: Seq<(Seq<char>, u128)>, from: Seq<char>, to: Seq<char>, amount: u128, w: Seq<char>)
    requires
        sorted_keys(t),
        balance_of(t, from) >= amount,
        from == to || balance_of(t, to) + amount <= u128::MAX,
    ensures
        balance_of(moved(moved(t, from, to, amount), to, from, amount), w) == balance_of(t, w),
{
    let t1 = moved(t, from, to, amount);
    law_move_changes_only_the_two(t, from, to, amount, w);
    law_move_changes_only_the_two(t, from, to, amount, from);
    law_move_changes_only_the_two(t, from, to, amount, to);
    law_move_changes_only_the_two(t1, to, from, amount, w);
}

/// Minting `amount` to a wallet raises the total of the balances by `amount`,
/// as it raises the supply; burning lowers both alike.
pub proof fn law_mint_and_burn_track_supply(t: Seq<(Seq<char>, u128)>, who: Seq<char>, amount: u128)
    requires
        sorted_keys(t),
    ensures
        balance_of(t, who) + amount <= u128::MAX ==> balances_total(
            saved(t, who, (balance_of(t, who) + amount) as u128),
        ) == balances_total(t) + amount,
        balance_of(t, who) >= amount ==> balances_total(saved(t, who, (balance_of(t, who) - amount) as u128))
            == balances_total(t) - amount,
{
    lemma_total_saved(t, who, (balance_of(t, who) + amount) as u128);
    lemma_total_saved(t, who, (balance_of(t, who) - amount) as u128);
}

/// An address not given in a list of initial balances has no balance after them.
pub proof fn lemma_accounts_absent(coins: Seq<Cw20Coin>, k: Seq<char>)
    requires
        forall|i: int| 0 <= i < coins.len() ==> #[trigger] coins[i].address@ != k,
    ensures
        sorted_keys(accounts_saved(Seq::empty(), coins)),
        lookup(accounts_saved(Seq::empty(), coins), k) is None,
    decreases coins.len(),
{
    if coins.len() > 0 {
        let rest = coins.drop_last();
        assert forall|i: int| 0 <= i < rest.len() implies #[trigger] rest[i].address@ != k by {
            assert(rest[i] == coins[i]);
        }
        lemma_accounts_absent(rest, k);
        let a = accounts_saved(Seq::empty(), rest);
        lemma_saved_sorted(a, coins.last().address@, coins.last().amount);
        crate::table::lemma_saved_lookup_other(a, coins.last().address@, coins.last().amount, k);
    }
}

/// Where no address is given twice, the initial balances add up to the
/// total supply the token starts with.
pub proof fn law_initial_balances_make_the_supply(coins: Seq<Cw20Coin>)
    requires
        forall|i: int, j: int| 0 <= i < j < coins.len() ==> #[trigger] coins[i].address@ != #[trigger] coins[j].address@,
    ensures
        sorted_keys(accounts_saved(Seq::empty(), coins)),
        balances_total(accounts_saved(Seq::empty(), coins)) == coins_total(coins),
    decreases coins.len(),
{
    if coins.len() > 0 {
        let rest = coins.drop_last();
        let last = coins.last();
        assert forall|i: int, j: int| 0 <= i < j < rest.len() implies #[trigger] rest[i].address@ != #[trigger] rest[j].address@ by {
            assert(rest[i] == coins[i] && rest[j] == coins[j]);
        }
        law_initial_balances_make_the_supply(rest);
        assert forall|i: int| 0 <= i < rest.len() implies #[trigger] rest[i].address@ != last.address@ by {
            assert(rest[i] == coins[i]);
            assert(coins[i].address@ != coins[coins.len() - 1].address@);
        }
        lemma_accounts_absent(rest, last.address@);
        let a = accounts_saved(Seq::empty(), rest);
        lemma_total_saved(a, last.address@, last.amount);
        lemma_saved_sorted(a, last.address@, last.amount);
    }
}

} // verus!
