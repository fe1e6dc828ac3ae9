//! Lists of entries in ascending key order, and the maps they stand for.

use vstd::prelude::*;
use crate::model::{lemma_order_eq, lemma_order_flip, value_order, ValueView};

verus! {

/// The keys ascend strictly by [`value_order`]; so no key occurs twice.
pub open spec fn sorted(s: Seq<(ValueView, ValueView)>) -> bool {
    forall|i: int, j: int|
        #![trigger s[i], s[j]]
        0 <= i < j < s.len() ==> value_order(s[i].0, s[j].0) < 0
}

/// The values of `ks` ascend strictly by [`value_order`].
pub open spec fn ascending(ks: Seq<ValueView>) -> bool {
    forall|i: int, j: int|
        #![trigger ks[i], ks[j]]
        0 <= i < j < ks.len() ==> value_order(ks[i], ks[j]) < 0
}

/// The list of entries with the keys `ks` and, place by place, the values
/// `vs`.
pub open spec fn zip(ks: Seq<ValueView>, vs: Seq<ValueView>) -> Seq<(ValueView, ValueView)> {
    Seq::new(ks.len(), |i: int| (ks[i], vs[i]))
}

/// A list of entries is sorted exactly when its keys ascend.
pub proof fn lemma_zip_sorted(ks: Seq<ValueView>, vs: Seq<ValueView>)
    ensures
        sorted(zip(ks, vs)) <==> ascending(ks),
{
    let s = zip(ks, vs);
    if ascending(ks) {
        assert forall|i: int, j: int| 0 <= i < j < s.len() implies value_order(s[i].0, s[j].0)
            < 0 by {
            assert(value_order(ks[i], ks[j]) < 0);
        }
    }
    if sorted(s) {
        assert forall|i: int, j: int| 0 <= i < j < ks.len() implies value_order(ks[i], ks[j])
            < 0 by {
            assert(value_order(s[i].0, s[j].0) < 0);
        }
    }
}

/// Some entry of `s` has the key `k`.
pub open spec fn has_key(s: Seq<(ValueView, ValueView)>, k: ValueView) -> bool {
    exists|i: int| 0 <= i < s.len() && (#[trigger] s[i]).0 == k
}

/// The place of an entry with the key `k`, where there is one.
pub open spec fn index_of(s: Seq<(ValueView, ValueView)>, k: ValueView) -> int {
    choose|i: int| 0 <= i < s.len() && (#[trigger] s[i]).0 == k
}

/// The map that a list of entries stands for.
pub open spec fn entries_map(s: Seq<(ValueView, ValueView)>) -> Map<ValueView, ValueView> {
    Map::new(|k: ValueView| has_key(s, k), |k: ValueView| s[index_of(s, k)].1)
}

/// `i` is where the key `k` belongs in `s`: every key before `i` is below
/// `k`, and every key from `i` on is above it.
pub open spec fn splits(s: Seq<(ValueView, ValueView)>, k: ValueView, i: int) -> bool {
    &&& 0 <= i <= s.len()
    &&& forall|j: int| 0 <= j < i ==> value_order((#[trigger] s[j]).0, k) < 0
    &&& forall|j: int| i <= j < s.len() ==> value_order(k, (#[trigger] s[j]).0) < 0
}

/// In a sorted list a key is found where it stands, with its value.
pub proof fn lemma_index_of(s: Seq<(ValueView, ValueView)>, i: int)
    requires
        sorted(s),
        0 <= i < s.len(),
    ensures
        has_key(s, s[i].0),
        index_of(s, s[i].0) == i,
        entries_map(s).contains_key(s[i].0),
        entries_map(s)[s[i].0] == s[i].1,
{
    let j = index_of(s, s[i].0);
    assert(s[j].0 == s[i].0);
    lemma_order_eq(s[i].0, s[j].0);
    lemma_order_eq(s[j].0, s[i].0);
    if j < i {
        assert(value_order(s[j].0, s[i].0) < 0);
    } else if i < j {
        assert(value_order(s[i].0, s[j].0) < 0);
    }
}

/// A key that belongs between two entries is not in the list.
pub proof fn lemma_splits_absent(s: Seq<(ValueView, ValueView)>, k: ValueView, i: int)
    requires
        splits(s, k, i),
    ensures
        !has_key(s, k),
        !entries_map(s).contains_key(k),
{
    lemma_order_eq(k, k);
    if has_key(s, k) {
        let j = index_of(s, k);
        assert(s[j].0 == k);
    }
}

/// Putting a new key where it belongs keeps the list sorted and inserts the
/// entry into the map.
pub proof fn lemma_insert(s: Seq<(ValueView, ValueView)>, i: int, k: ValueView, v: ValueView)
    requires
        sorted(s),
        splits(s, k, i),
    ensures
        sorted(s.insert(i, (k, v))),
        entries_map(s.insert(i, (k, v))) == entries_map(s).insert(k, v),
{
    let r = s.insert(i, (k, v));
    assert forall|a: int, b: int| 0 <= a < b < r.len() implies value_order(r[a].0, r[b].0) < 0 by {
        if b < i {
            assert(value_order(s[a].0, s[b].0) < 0);
        } else if b == i {
            assert(value_order(s[a].0, k) < 0);
        } else if a < i {
            assert(value_order(s[a].0, s[b - 1].0) < 0);
        } else if a == i {
            assert(value_order(k, s[b - 1].0) < 0);
        } else {
            assert(value_order(s[a - 1].0, s[b - 1].0) < 0);
        }
    }
    assert(r[i] == (k, v));
    lemma_index_of(r, i);
    assert forall|x: ValueView| has_key(r, x) <==> (x == k || has_key(s, x)) by {
        if has_key(r, x) && x != k {
            let j = index_of(r, x);
            if j < i {
                assert(s[j].0 == x);
            } else {
                assert(s[j - 1].0 == x);
            }
        }
        if has_key(s, x) {
            let j = index_of(s, x);
            if j < i {
                assert(r[j].0 == x);
            } else {
                assert(r[j + 1].0 == x);
            }
        }
    }
    assert forall|x: ValueView| has_key(s, x) && x != k implies entries_map(r)[x] == entries_map(
        s,
    )[x] by {
        let j = index_of(s, x);
        lemma_index_of(s, j);
        if j < i {
            assert(r[j] == s[j]);
            lemma_index_of(r, j);
        } else {
            assert(r[j + 1] == s[j]);
            lemma_index_of(r, j + 1);
        }
    }
    assert(entries_map(r) =~= entries_map(s).insert(k, v));
}

/// Replacing the value of an entry keeps the list sorted and overwrites the
/// entry in the map.
pub proof fn lemma_update(s: Seq<(ValueView, ValueView)>, i: int, v: ValueView)
    requires
        sorted(s),
        0 <= i < s.len(),
    ensures
        sorted(s.update(i, (s[i].0, v))),
        entries_map(s.update(i, (s[i].0, v))) == entries_map(s).insert(s[i].0, v),
{
    let k = s[i].0;
    let r = s.update(i, (k, v));
    assert forall|a: int, b: int| 0 <= a < b < r.len() implies value_order(r[a].0, r[b].0) < 0 by {
        assert(value_order(s[a].0, s[b].0) < 0);
    }
    lemma_index_of(r, i);
    assert forall|x: ValueView| has_key(r, x) <==> (x == k || has_key(s, x)) by {
        if has_key(r, x) {
            let j = index_of(r, x);
            assert(s[j].0 == x);
        }
        if has_key(s, x) {
            let j = index_of(s, x);
            assert(r[j].0 == x);
        }
        if x == k {
            assert(s[i].0 == x);
        }
    }
    assert forall|x: ValueView| has_key(s, x) && x != k implies entries_map(r)[x] == entries_map(
        s,
    )[x] by {
        let j = index_of(s, x);
        lemma_index_of(s, j);
        assert(r[j] == s[j]);
        lemma_index_of(r, j);
    }
    assert(entries_map(r) =~= entries_map(s).insert(k, v));
}

/// Taking an entry out keeps the list sorted and removes its key from the
/// map.
pub proof fn lemma_remove(s: Seq<(ValueView, ValueView)>, i: int)
    requires
        sorted(s),
        0 <= i < s.len(),
    ensures
        sorted(s.remove(i)),
        entries_map(s.remove(i)) == entries_map(s).remove(s[i].0),
{
    let k = s[i].0;
    let r = s.remove(i);
    assert forall|a: int, b: int| 0 <= a < b < r.len() implies value_order(r[a].0, r[b].0) < 0 by {
        let a0 = if a < i { a } else { a + 1 };
        let b0 = if b < i { b } else { b + 1 };
        assert(value_order(s[a0].0, s[b0].0) < 0);
    }
    lemma_index_of(s, i);
    assert forall|x: ValueView| has_key(r, x) <==> (x != k && has_key(s, x)) by {
        if has_key(r, x) {
            let j = index_of(r, x);
            let j0 = if j < i { j } else { j + 1 };
            assert(s[j0].0 == x);
            lemma_index_of(s, j0);
        }
        if has_key(s, x) && x != k {
            let j = index_of(s, x);
            if j < i {
                assert(r[j].0 == x);
            } else {
                assert(r[j - 1].0 == x);
            }
        }
    }
    assert forall|x: ValueView| has_key(r, x) implies entries_map(r)[x] == entries_map(s)[x] by {
        let j = index_of(r, x);
        lemma_index_of(r, j);
        let j0 = if j < i { j } else { j + 1 };
        assert(s[j0] == r[j]);
        lemma_index_of(s, j0);
    }
    assert(entries_map(r) =~= entries_map(s).remove(k));
}

/// A sorted list has as many entries as its map has keys.
pub proof fn lemma_map_len(s: Seq<(ValueView, ValueView)>)
    requires
        sorted(s),
    ensures
        entries_map(s).dom().finite(),
        entries_map(s).len() == s.len(),
    decreases s.len(),
{
    if s.len() == 0 {
        assert(entries_map(s) =~= Map::empty());
    } else {
        let n = s.len() - 1;
        let r = s.remove(n);
        lemma_remove(s, n);
        lemma_map_len(r);
        lemma_index_of(s, n);
        assert(entries_map(s) =~= entries_map(r).insert(s[n].0, s[n].1));
    }
}

/// Two sorted lists that stand for the same map are the same list.
pub proof fn lemma_sorted_unique(s: Seq<(ValueView, ValueView)>, t: Seq<(ValueView, ValueView)>)
    requires
        sorted(s),
        sorted(t),
        entries_map(s) == entries_map(t),
    ensures
        s == t,
    decreases s.len(),
{
    if s.len() == 0 {
        if t.len() > 0 {
            lemma_index_of(t, 0);
            assert(entries_map(s).contains_key(t[0].0));
        }
        assert(s =~= t);
    } else {
        lemma_index_of(s, 0);
        assert(entries_map(t).contains_key(s[0].0));
        let j = index_of(t, s[0].0);
        assert(t[j].0 == s[0].0);
        lemma_index_of(t, 0);
        assert(entries_map(s).contains_key(t[0].0));
        let i = index_of(s, t[0].0);
        assert(s[i].0 == t[0].0);
        if j > 0 {
            assert(value_order(t[0].0, t[j].0) < 0);
            lemma_order_flip(s[0].0, s[i].0);
            lemma_order_eq(s[0].0, s[i].0);
            if i > 0 {
                assert(value_order(s[0].0, s[i].0) < 0);
            }
        }
        assert(s[0] == t[0]);
        lemma_remove(s, 0);
        lemma_remove(t, 0);
        lemma_sorted_unique(s.remove(0), t.remove(0));
        assert(s =~= seq![s[0]] + s.remove(0));
        assert(t =~= seq![t[0]] + t.remove(0));
    }
}

} // verus!
