//! A string-keyed table whose entries are kept in ascending order of the
//! UTF-8 bytes of their keys: the model of a contract storage map, which
//! hands its keys out in that order.
use vstd::prelude::*;
use vstd::utf8::*;

verus! {

broadcast use vstd::utf8::encode_utf8_decode_utf8;

/// Lexicographic order on byte strings (a proper prefix comes first).
pub open spec fn bytes_lt(a: Seq<u8>, b: Seq<u8>) -> bool
    decreases a.len(),
{
    if a.len() == 0 {
        b.len() > 0
    } else if b.len() == 0 {
        false
    } else if a[0] < b[0] {
        true
    } else if a[0] > b[0] {
        false
    } else {
        bytes_lt(a.drop_first(), b.drop_first())
    }
}

/// Order of keys: by the bytes of their UTF-8 encoding.
pub open spec fn key_lt(a: Seq<char>, b: Seq<char>) -> bool {
    bytes_lt(encode_utf8(a), encode_utf8(b))
}

pub proof fn lemma_bytes_lt_irreflexive(a: Seq<u8>)
    ensures
        !bytes_lt(a, a),
    decreases a.len(),
{
    if a.len() > 0 {
        lemma_bytes_lt_irreflexive(a.drop_first());
    }
}

pub proof fn lemma_bytes_lt_asymmetric(a: Seq<u8>, b: Seq<u8>)
    ensures
        !(bytes_lt(a, b) && bytes_lt(b, a)),
    decreases a.len(),
{
    if a.len() > 0 && b.len() > 0 && a[0] == b[0] {
        lemma_bytes_lt_asymmetric(a.drop_first(), b.drop_first());
    }
}

pub proof fn lemma_bytes_lt_transitive(a: Seq<u8>, b: Seq<u8>, c: Seq<u8>)
    requires
        bytes_lt(a, b),
        bytes_lt(b, c),
    ensures
        bytes_lt(a, c),
    decreases a.len(),
{
    if a.len() > 0 && b.len() > 0 && c.len() > 0 && a[0] == b[0] && b[0] == c[0] {
        lemma_bytes_lt_transitive(a.drop_first(), b.drop_first(), c.drop_first());
    }
}

pub proof fn lemma_bytes_lt_total(a: Seq<u8>, b: Seq<u8>)
    requires
        a != b,
    ensures
        bytes_lt(a, b) || bytes_lt(b, a),
    decreases a.len(),
{
    if a.len() == 0 && b.len() == 0 {
        assert(a =~= b);
    } else if a.len() > 0 && b.len() > 0 && a[0] == b[0] {
        if a.drop_first() == b.drop_first() {
            assert(a =~= seq![a[0]] + a.drop_first());
            assert(b =~= seq![b[0]] + b.drop_first());
        } else {
            lemma_bytes_lt_total(a.drop_first(), b.drop_first());
        }
    }
}

pub proof fn lemma_key_lt_irreflexive(a: Seq<char>)
    ensures
        !key_lt(a, a),
{
    lemma_bytes_lt_irreflexive(encode_utf8(a));
}

pub proof fn lemma_key_lt_transitive(a: Seq<char>, b: Seq<char>, c: Seq<char>)
    requires
        key_lt(a, b),
        key_lt(b, c),
    ensures
        key_lt(a, c),
{
    lemma_bytes_lt_transitive(encode_utf8(a), encode_utf8(b), encode_utf8(c));
}

pub proof fn lemma_key_lt_total(a: Seq<char>, b: Seq<char>)
    requires
        a != b,
    ensures
        key_lt(a, b) || key_lt(b, a),
{
    if encode_utf8(a) == encode_utf8(b) {
        assert(decode_utf8(encode_utf8(a)) == decode_utf8(encode_utf8(b)));
    }
    lemma_bytes_lt_total(encode_utf8(a), encode_utf8(b));
}

pub proof fn lemma_key_lt_asymmetric(a: Seq<char>, b: Seq<char>)
    ensures
        !(key_lt(a, b) && key_lt(b, a)),
{
    lemma_bytes_lt_asymmetric(encode_utf8(a), encode_utf8(b));
}

/// Entries are in strictly ascending order of their keys.
pub open spec fn sorted_keys<V>(s: Seq<(Seq<char>, V)>) -> bool {
    forall|i: int, j: int| 0 <= i < j < s.len() ==> key_lt(#[trigger] s[i].0, #[trigger] s[j].0)
}

/// The position of key `k` in `s`, if it is there.
pub open spec fn has_key<V>(s: Seq<(Seq<char>, V)>, k: Seq<char>) -> bool {
    exists|i: int| 0 <= i < s.len() && #[trigger] s[i].0 == k
}

pub open spec fn key_pos<V>(s: Seq<(Seq<char>, V)>, k: Seq<char>) -> int {
    choose|i: int| 0 <= i < s.len() && #[trigger] s[i].0 == k
}

/// What a lookup of `k` yields.
pub open spec fn lookup<V>(s: Seq<(Seq<char>, V)>, k: Seq<char>) -> Option<V> {
    if has_key(s, k) {
        Some(s[key_pos(s, k)].1)
    } else {
        None
    }
}

/// Where a new key goes: every key before it is smaller, every key from it on larger.
pub open spec fn is_insert_pos<V>(s: Seq<(Seq<char>, V)>, k: Seq<char>, p: int) -> bool {
    &&& 0 <= p <= s.len()
    &&& forall|i: int| 0 <= i < p ==> key_lt(#[trigger] s[i].0, k)
    &&& forall|i: int| p <= i < s.len() ==> key_lt(k, #[trigger] s[i].0)
}

pub open spec fn insert_pos<V>(s: Seq<(Seq<char>, V)>, k: Seq<char>) -> int {
    choose|p: int| is_insert_pos(s, k, p)
}

/// The entries after a save of `v` under `k`: replaced in place, or inserted in order.
pub open spec fn saved<V>(s: Seq<(Seq<char>, V)>, k: Seq<char>, v: V) -> Seq<(Seq<char>, V)> {
    if has_key(s, k) {
        s.update(key_pos(s, k), (k, v))
    } else {
        s.insert(insert_pos(s, k), (k, v))
    }
}

/// The entries after removal of `k`.
pub open spec fn removed<V>(s: Seq<(Seq<char>, V)>, k: Seq<char>) -> Seq<(Seq<char>, V)> {
    if has_key(s, k) {
        s.remove(key_pos(s, k))
    } else {
        s
    }
}

/// In sorted entries a key stands at one position only.
pub proof fn lemma_key_pos_unique<V>(s: Seq<(Seq<char>, V)>, i: int)
    requires
        sorted_keys(s),
        0 <= i < s.len(),
    ensures
        has_key(s, s[i].0),
        key_pos(s, s[i].0) == i,
{
    let k = s[i].0;
    assert(has_key(s, k));
    let j = key_pos(s, k);
    if j < i {
        lemma_key_lt_irreflexive(k);
        assert(key_lt(s[j].0, s[i].0));
    } else if j > i {
        lemma_key_lt_irreflexive(k);
        assert(key_lt(s[i].0, s[j].0));
    }
}

pub proof fn lemma_insert_pos_unique<V>(s: Seq<(Seq<char>, V)>, k: Seq<char>, p: int)
    requires
        is_insert_pos(s, k, p),
    ensures
        insert_pos(s, k) == p,
{
    assert(is_insert_pos(s, k, p));
    let q = insert_pos(s, k);
    if q < p {
        assert(key_lt(k, s[q].0));
        assert(key_lt(s[q].0, k));
        lemma_key_lt_asymmetric(k, s[q].0);
    } else if q > p {
        assert(key_lt(s[p].0, k));
        assert(key_lt(k, s[p].0));
        lemma_key_lt_asymmetric(k, s[p].0);
    }
}

/// A save keeps the entries sorted.
pub proof fn lemma_saved_sorted<V>(s: Seq<(Seq<char>, V)>, k: Seq<char>, v: V)
    requires
        sorted_keys(s),
    ensures
        sorted_keys(saved(s, k, v)),
{
    if !has_key(s, k) {
        lemma_insert_pos_exists(s, k);
    }
    if has_key(s, k) {
        let p = key_pos(s, k);
        let t = saved(s, k, v);
        assert forall|i: int, j: int| 0 <= i < j < t.len() implies key_lt(
            #[trigger] t[i].0,
            #[trigger] t[j].0,
        ) by {
            assert(t[i].0 == s[i].0);
            assert(t[j].0 == s[j].0);
        }
    } else {
        let p = insert_pos(s, k);
        let t = saved(s, k, v);
        assert forall|i: int, j: int| 0 <= i < j < t.len() implies key_lt(
            #[trigger] t[i].0,
            #[trigger] t[j].0,
        ) by {
            if j < p {
                assert(t[i] == s[i] && t[j] == s[j]);
            } else if j == p {
                assert(t[i] == s[i]);
            } else if i < p {
                assert(t[i] == s[i] && t[j] == s[j - 1]);
                lemma_key_lt_transitive(s[i].0, k, s[j - 1].0);
            } else if i == p {
                assert(t[j] == s[j - 1]);
            } else {
                assert(t[i] == s[i - 1] && t[j] == s[j - 1]);
            }
        }
    }
}

/// Each entry after a save is the saved one or an entry from before; returns
/// where it was before.
pub proof fn lemma_saved_entry<V>(s: Seq<(Seq<char>, V)>, k: Seq<char>, v: V, i: int) -> (j: int)
    requires
        sorted_keys(s),
        0 <= i < saved(s, k, v).len(),
    ensures
        saved(s, k, v)[i] == (k, v) || (0 <= j < s.len() && saved(s, k, v)[i] == s[j]),
{
    if has_key(s, k) {
        if i == key_pos(s, k) {
            0
        } else {
            i
        }
    } else {
        lemma_insert_pos_exists(s, k);
        let p = insert_pos(s, k);
        if i < p {
            i
        } else if i == p {
            0
        } else {
            i - 1
        }
    }
}

/// Removal keeps the entries sorted.
pub proof fn lemma_removed_sorted<V>(s: Seq<(Seq<char>, V)>, k: Seq<char>)
    requires
        sorted_keys(s),
    ensures
        sorted_keys(removed(s, k)),
{
    if has_key(s, k) {
        let p = key_pos(s, k);
        let t = removed(s, k);
        assert forall|i: int, j: int| 0 <= i < j < t.len() implies key_lt(
            #[trigger] t[i].0,
            #[trigger] t[j].0,
        ) by {
            let ii = if i < p { i } else { i + 1 };
            let jj = if j < p { j } else { j + 1 };
            assert(t[i] == s[ii] && t[j] == s[jj]);
        }
    }
}

/// A save is read back: the saved key yields the saved value.
pub proof fn lemma_saved_lookup_same<V>(s: Seq<(Seq<char>, V)>, k: Seq<char>, v: V)
    requires
        sorted_keys(s),
    ensures
        lookup(saved(s, k, v), k) == Some(v),
        has_key(saved(s, k, v), k),
{
    if !has_key(s, k) {
        lemma_insert_pos_exists(s, k);
    }
    lemma_saved_sorted(s, k, v);
    let t = saved(s, k, v);
    let p = if has_key(s, k) { key_pos(s, k) } else { insert_pos(s, k) };
    assert(t[p].0 == k);
    lemma_key_pos_unique(t, p);
}

/// A save leaves every other key as it was.
pub proof fn lemma_saved_lookup_other<V>(s: Seq<(Seq<char>, V)>, k: Seq<char>, v: V, k2: Seq<char>)
    requires
        sorted_keys(s),
        k2 != k,
    ensures
        lookup(saved(s, k, v), k2) == lookup(s, k2),
        has_key(saved(s, k, v), k2) == has_key(s, k2),
{
    if !has_key(s, k) {
        lemma_insert_pos_exists(s, k);
    }
    lemma_saved_sorted(s, k, v);
    let t = saved(s, k, v);
    let p = if has_key(s, k) { key_pos(s, k) } else { insert_pos(s, k) };
    if has_key(s, k2) {
        let i = key_pos(s, k2);
        lemma_key_pos_unique(s, i);
        let j = if has_key(s, k) { i } else if i < p { i } else { i + 1 };
        assert(t[j] == s[i]);
        lemma_key_pos_unique(t, j);
    }
    if has_key(t, k2) {
        let j = key_pos(t, k2);
        let i = if has_key(s, k) { j } else if j < p { j } else { j - 1 };
        assert(s[i] == t[j]);
    }
}

/// The entries with each value mapped through `f`, keys kept.
pub open spec fn map_vals<V, W>(s: Seq<(Seq<char>, V)>, f: spec_fn(V) -> W) -> Seq<(Seq<char>, W)> {
    s.map_values(|e: (Seq<char>, V)| (e.0, f(e.1)))
}

/// Mapping the values keeps the keys, so lookups map along.
pub proof fn lemma_map_vals_lookup<V, W>(s: Seq<(Seq<char>, V)>, f: spec_fn(V) -> W, k: Seq<char>)
    requires
        sorted_keys(s),
    ensures
        sorted_keys(map_vals(s, f)),
        has_key(map_vals(s, f), k) == has_key(s, k),
        lookup(map_vals(s, f), k) == match lookup(s, k) {
            Some(v) => Some(f(v)),
            None => None,
        },
{
    let m = map_vals(s, f);
    assert(sorted_keys(m)) by {
        assert forall|i: int, j: int| 0 <= i < j < m.len() implies key_lt(#[trigger] m[i].0, #[trigger] m[j].0) by {
            assert(m[i].0 == s[i].0 && m[j].0 == s[j].0);
        }
    }
    if has_key(s, k) {
        let i = key_pos(s, k);
        lemma_key_pos_unique(s, i);
        assert(m[i].0 == k);
        lemma_key_pos_unique(m, i);
    }
    if has_key(m, k) {
        let i = key_pos(m, k);
        assert(s[i].0 == k);
    }
}

/// Mapping the values commutes with a save.
pub proof fn lemma_map_vals_saved<V, W>(s: Seq<(Seq<char>, V)>, f: spec_fn(V) -> W, k: Seq<char>, v: V)
    requires
        sorted_keys(s),
    ensures
        map_vals(saved(s, k, v), f) == saved(map_vals(s, f), k, f(v)),
{
    let m = map_vals(s, f);
    lemma_map_vals_lookup(s, f, k);
    if has_key(s, k) {
        let i = key_pos(s, k);
        lemma_key_pos_unique(s, i);
        assert(m[i].0 == k);
        lemma_key_pos_unique(m, i);
        assert(map_vals(saved(s, k, v), f) =~= saved(m, k, f(v)));
    } else {
        lemma_insert_pos_exists(s, k);
        let p = insert_pos(s, k);
        assert(is_insert_pos(m, k, p)) by {
            assert forall|i: int| 0 <= i < p implies key_lt(#[trigger] m[i].0, k) by {
                assert(m[i].0 == s[i].0);
            }
            assert forall|i: int| p <= i < m.len() implies key_lt(k, #[trigger] m[i].0) by {
                assert(m[i].0 == s[i].0);
            }
        }
        lemma_insert_pos_unique(m, k, p);
        assert(map_vals(saved(s, k, v), f) =~= saved(m, k, f(v)));
    }
}

/// Where a key is missing, an insert position exists.
pub proof fn lemma_insert_pos_exists<V>(s: Seq<(Seq<char>, V)>, k: Seq<char>)
    requires
        sorted_keys(s),
        !has_key(s, k),
    ensures
        is_insert_pos(s, k, insert_pos(s, k)),
    decreases s.len(),
{
    if s.len() == 0 {
        assert(is_insert_pos(s, k, 0));
    } else {
        let t = s.drop_last();
        assert(sorted_keys(t)) by {
            assert forall|i: int, j: int| 0 <= i < j < t.len() implies key_lt(#[trigger] t[i].0, #[trigger] t[j].0) by {
                assert(t[i] == s[i] && t[j] == s[j]);
            }
        }
        assert(!has_key(t, k)) by {
            if has_key(t, k) {
                let i = key_pos(t, k);
                assert(s[i].0 == k);
            }
        }
        lemma_insert_pos_exists(t, k);
        let q = insert_pos(t, k);
        assert(is_insert_pos(t, k, q));
        let last = s[s.len() - 1].0;
        assert(last != k);
        lemma_key_lt_total(last, k);
        if key_lt(last, k) {
            assert(is_insert_pos(s, k, s.len() as int)) by {
                assert forall|i: int| 0 <= i < s.len() implies key_lt(#[trigger] s[i].0, k) by {
                    if i < s.len() - 1 {
                        lemma_key_lt_transitive(s[i].0, last, k);
                    }
                }
            }
        } else {
            assert(is_insert_pos(s, k, q)) by {
                assert forall|i: int| 0 <= i < q implies key_lt(#[trigger] s[i].0, k) by {
                    assert(s[i] == t[i]);
                }
                assert forall|i: int| q <= i < s.len() implies key_lt(k, #[trigger] s[i].0) by {
                    if i < s.len() - 1 {
                        assert(s[i] == t[i]);
                    } else {
                        lemma_key_lt_asymmetric(last, k);
                    }
                }
            }
        }
    }
}

/// Order of the UTF-8 bytes of two strings, computed.
pub fn key_less(a: &String, b: &String) -> (r: bool)
    ensures
        r == key_lt(a@, b@),
{
    let x = a.as_str().as_bytes();
    let y = b.as_str().as_bytes();
    let ghost xs = x@;
    let ghost ys = y@;
    let mut i: usize = 0;
    assert(xs.subrange(0, xs.len() as int) =~= xs);
    assert(ys.subrange(0, ys.len() as int) =~= ys);
    while i < x.len() && i < y.len() && x[i] == y[i]
        invariant
            x@ == xs,
            y@ == ys,
            xs == encode_utf8(a@),
            ys == encode_utf8(b@),
            i <= xs.len(),
            i <= ys.len(),
            bytes_lt(xs, ys) == bytes_lt(xs.subrange(i as int, xs.len() as int), ys.subrange(i as int, ys.len() as int)),
        decreases xs.len() - i,
    {
        let ghost xr = xs.subrange(i as int, xs.len() as int);
        let ghost yr = ys.subrange(i as int, ys.len() as int);
        assert(xr.drop_first() =~= xs.subrange(i + 1, xs.len() as int));
        assert(yr.drop_first() =~= ys.subrange(i + 1, ys.len() as int));
        i = i + 1;
    }
    let ghost xr = xs.subrange(i as int, xs.len() as int);
    let ghost yr = ys.subrange(i as int, ys.len() as int);
    if i == x.len() {
        i < y.len()
    } else if i == y.len() {
        false
    } else {
        assert(xr[0] == x@[i as int]);
        assert(yr[0] == y@[i as int]);
        x[i] < y[i]
    }
}

/// A map from strings to values whose entries stand in ascending key order.
pub struct Table<V> {
    entries: Vec<(String, V)>,
}

impl<V: View> View for Table<V> {
    type V = Seq<(Seq<char>, V::V)>;

    closed spec fn view(&self) -> Seq<(Seq<char>, V::V)> {
        self.entries@.map_values(|e: (String, V)| (e.0@, e.1@))
    }
}

impl<V: View> Table<V> {
    /// Well-formed: keys strictly ascending.
    pub open spec fn wf(&self) -> bool {
        sorted_keys(self@)
    }

    pub fn new() -> (t: Self)
        ensures
            t@ == Seq::<(Seq<char>, V::V)>::empty(),
            t.wf(),
    {
        let t = Table { entries: Vec::new() };
        assert(t@ =~= Seq::<(Seq<char>, V::V)>::empty());
        t
    }

    pub fn len(&self) -> (n: usize)
        ensures
            n == self@.len(),
    {
        self.entries.len()
    }

    pub fn key_at(&self, i: usize) -> (k: &String)
        requires
            i < self@.len(),
        ensures
            k@ == self@[i as int].0,
    {
        &self.entries[i].0
    }

    pub fn val_at(&self, i: usize) -> (v: &V)
        requires
            i < self@.len(),
        ensures
            v@ == self@[i as int].1,
    {
        &self.entries[i].1
    }

    /// The position of `k`, if the table holds it.
    pub fn find(&self, k: &String) -> (r: Option<usize>)
        requires
            self.wf(),
        ensures
            r.is_some() <==> has_key(self@, k@),
            r.is_some() ==> r.unwrap() == key_pos(self@, k@) && r.unwrap() < self@.len(),
    {
        let mut i: usize = 0;
        while i < self.entries.len()
            invariant
                i <= self@.len(),
                self.wf(),
                self@.len() == self.entries@.len(),
                forall|j: int| 0 <= j < i ==> #[trigger] self@[j].0 != k@,
            decreases self@.len() - i,
        {
            if self.entries[i].0.eq(k) {
                proof {
                    assert(self@[i as int].0 == k@);
                    lemma_key_pos_unique(self@, i as int);
                }
                return Some(i);
            }
            i = i + 1;
        }
        None
    }

    pub fn get(&self, k: &String) -> (r: Option<&V>)
        requires
            self.wf(),
        ensures
            match r {
                Some(v) => lookup(self@, k@) == Some(v@),
                None => lookup(self@, k@).is_none(),
            },
    {
        match self.find(k) {
            Some(i) => Some(&self.entries[i].1),
            None => None,
        }
    }

    pub fn contains(&self, k: &String) -> (r: bool)
        requires
            self.wf(),
        ensures
            r == has_key(self@, k@),
    {
        self.find(k).is_some()
    }

    /// Replaces the value at position `i`; keys stay as they are.
    pub fn set_val_at(&mut self, i: usize, v: V)
        requires
            i < old(self)@.len(),
        ensures
            final(self)@ == old(self)@.update(i as int, (old(self)@[i as int].0, v@)),
    {
        let ghost old_e = self.entries@;
        let k = self.entries[i].0.clone();
        self.entries.set(i, (k, v));
        assert(self@ =~= old(self)@.update(i as int, (old(self)@[i as int].0, v@)));
    }

    /// Stores `v` under `k`, in place if `k` is there, else at its place in key order.
    pub fn save(&mut self, k: String, v: V)
        requires
            old(self).wf(),
        ensures
            final(self)@ == saved(old(self)@, k@, v@),
            final(self).wf(),
    {
        match self.find(&k) {
            Some(i) => {
                let ghost vv = v@;
                self.set_val_at(i, v);
                proof {
                    lemma_saved_sorted(old(self)@, k@, vv);
                }
            },
            None => {
                let mut p: usize = 0;
                while p < self.entries.len() && key_less(&self.entries[p].0, &k)
                    invariant
                        p <= self@.len(),
                        self@.len() == self.entries@.len(),
                        self@ == old(self)@,
                        forall|i: int| 0 <= i < p ==> key_lt(#[trigger] self@[i].0, k@),
                    decreases self@.len() - p,
                {
                    p = p + 1;
                }
                proof {
                    let s = self@;
                    assert forall|i: int| p <= i < s.len() implies key_lt(k@, #[trigger] s[i].0) by {
                        assert(s[p as int].0 != k@);
                        lemma_key_lt_total(s[p as int].0, k@);
                        assert(!key_lt(s[p as int].0, k@));
                        if i > p {
                            assert(key_lt(s[p as int].0, s[i].0));
                            lemma_key_lt_transitive(k@, s[p as int].0, s[i].0);
                        }
                    }
                    assert(is_insert_pos(s, k@, p as int));
                    lemma_insert_pos_unique(s, k@, p as int);
                    lemma_saved_sorted(s, k@, v@);
                }
                let ghost kv = (k@, v@);
                self.entries.insert(p, (k, v));
                assert(self@ =~= old(self)@.insert(p as int, kv));
            },
        }
    }

    /// A copy of the table, each value copied by `copy`.
    pub fn duplicate<F: Fn(&V) -> V>(&self, copy: F) -> (r: Self)
        requires
            forall|v: &V| #[trigger] copy.requires((v,)),
            forall|v: &V, w: V| copy.ensures((v,), w) ==> w@ == v@,
        ensures
            r@ == self@,
    {
        let mut entries: Vec<(String, V)> = Vec::new();
        let mut i: usize = 0;
        while i < self.entries.len()
            invariant
                i <= self.entries@.len(),
                forall|v: &V| #[trigger] copy.requires((v,)),
                forall|v: &V, w: V| copy.ensures((v,), w) ==> w@ == v@,
                entries@.map_values(|e: (String, V)| (e.0@, e.1@)) == self@.take(i as int),
            decreases self.entries@.len() - i,
        {
            let k = self.entries[i].0.clone();
            let v = copy(&self.entries[i].1);
            let ghost before = entries@;
            entries.push((k, v));
            assert(entries@.map_values(|e: (String, V)| (e.0@, e.1@)) =~= before.map_values(
                |e: (String, V)| (e.0@, e.1@),
            ).push((k@, v@)));
            assert(entries@.map_values(|e: (String, V)| (e.0@, e.1@)) =~= self@.take(i + 1));
            i = i + 1;
        }
        assert(self@.take(self@.len() as int) =~= self@);
        Table { entries }
    }

    /// Removes the entry of `k`, if there is one.
    pub fn remove(&mut self, k: &String)
        requires
            old(self).wf(),
        ensures
            final(self)@ == removed(old(self)@, k@),
            final(self).wf(),
    {
        proof {
            lemma_removed_sorted(old(self)@, k@);
        }
        match self.find(k) {
            Some(i) => {
                self.entries.remove(i);
                assert(self@ =~= old(self)@.remove(i as int));
            },
            None => {},
        }
    }
}

} // verus!
