//! The table: a map from values to values that is itself a value.

use vstd::prelude::*;
use crate::entries::{
    ascending, entries_map, lemma_index_of, lemma_insert, lemma_map_len, lemma_remove,
    lemma_sorted_unique, lemma_splits_absent, lemma_update, lemma_zip_sorted, sorted, splits, zip,
};
use crate::hasher::feed;
use crate::model::{
    entries_hash, entries_order, lemma_entries_order_eq, lemma_order_eq, lemma_order_flip,
    lemma_order_trans, value_order, Order, ValueView, HASH_START,
};
use crate::value::{fold, order_text, order_unsigned, seq_views, Value};

verus! {

/// A map from values to values. The entries are kept in ascending key order,
/// so that two tables with the same content are the same list of entries.
#[derive(Debug)]
pub struct Table {
    keys: Vec<Value>,
    vals: Vec<Value>,
}

/// What a key is looked up by: a value, or a text that stands for the
/// string value holding it.
enum Probe<'a> {
    Value(&'a Value),
    Text(&'a str),
}

impl<'a> View for Probe<'a> {
    type V = ValueView;

    closed spec fn view(&self) -> ValueView {
        match self {
            Probe::Value(v) => v@,
            Probe::Text(s) => ValueView::String(s@),
        }
    }
}

impl<'a> Probe<'a> {
    /// Compares what is looked for with a key.
    fn compare(&self, key: &Value) -> (r: Order)
        ensures
            r.sign() == value_order(self@, key@),
    {
        match self {
            Probe::Value(v) => v.compare(key),
            Probe::Text(s) => match key {
                Value::String(t) => order_text(s, t.as_str()),
                _ => order_unsigned(6, key.rank()),
            },
        }
    }

    /// The key to store where none was found.
    fn to_key(&self) -> (k: Value)
        ensures
            k@ == self@,
    {
        match self {
            Probe::Value(v) => (*v).clone(),
            Probe::Text(s) => Value::str(s),
        }
    }
}

impl View for Table {
    type V = Map<ValueView, ValueView>;

    /// The map from each key to its value.
    closed spec fn view(&self) -> Map<ValueView, ValueView> {
        entries_map(self.entries())
    }
}

impl Table {
    /// The entries in ascending key order.
    pub closed spec fn entries(&self) -> Seq<(ValueView, ValueView)>
        decreases self,
    {
        zip(seq_views(self.keys@), seq_views(self.vals@))
    }

    /// Every key has its value, and the keys ascend strictly. This holds of
    /// every table that a program holds.
    #[verifier::type_invariant]
    pub closed spec fn wf(self) -> bool {
        &&& self.keys@.len() == self.vals@.len()
        &&& ascending(seq_views(self.keys@))
    }

    /// The entries of a table are sorted, and the table is the map that
    /// they stand for.
    pub proof fn lemma_sorted(self)
        requires
            self.wf(),
        ensures
            sorted(self.entries()),
            self@ == entries_map(self.entries()),
    {
        self.lemma_inv();
    }

    /// What the invariant says of the two vectors.
    proof fn lemma_inv(self)
        requires
            self.wf(),
        ensures
            sorted(self.entries()),
            self.entries().len() == self.keys@.len(),
            self.keys@.len() == self.vals@.len(),
    {
        lemma_zip_sorted(seq_views(self.keys@), seq_views(self.vals@));
    }

    /// Creates new table.
    pub fn new() -> (t: Table)
        ensures
            t@ == Map::<ValueView, ValueView>::empty(),
            t.entries().len() == 0,
    {
        let t = Table { keys: Vec::new(), vals: Vec::new() };
        proof {
            assert(t@ =~= Map::<ValueView, ValueView>::empty());
        }
        t
    }

    /// Three-way comparison of two tables by their entries, the first
    /// difference deciding.
    pub fn compare(&self, other: &Table) -> (r: Order)
        ensures
            r.sign() == entries_order(self.entries(), other.entries()),
        decreases self,
    {
        proof {
            use_type_invariant(self);
            self.lemma_inv();
            use_type_invariant(other);
            other.lemma_inv();
        }
        let ghost s = self.entries();
        let ghost t = other.entries();
        proof {
            assert(s.skip(0) =~= s);
            assert(t.skip(0) =~= t);
        }
        let mut i: usize = 0;
        while i < self.keys.len() && i < other.keys.len()
            invariant
                i <= self.keys.len(),
                i <= other.keys.len(),
                self.keys.len() == self.vals.len(),
                other.keys.len() == other.vals.len(),
                s == self.entries(),
                t == other.entries(),
                entries_order(s, t) == entries_order(s.skip(i as int), t.skip(i as int)),
            decreases self.keys.len() - i,
        {
            proof {
                assert(s.skip(i as int).drop_first() =~= s.skip(i as int + 1));
                assert(t.skip(i as int).drop_first() =~= t.skip(i as int + 1));
            }
            let c = self.keys[i].compare(&other.keys[i]);
            if c != Order::Equal {
                return c;
            }
            let d = self.vals[i].compare(&other.vals[i]);
            if d != Order::Equal {
                return d;
            }
            i += 1;
        }
        if i < other.keys.len() {
            Order::Less
        } else if i < self.keys.len() {
            Order::Greater
        } else {
            Order::Equal
        }
    }

    /// The hash of the table: equal tables have equal hashes.
    pub fn hash_code(&self) -> (h: u64)
        ensures
            h == entries_hash(self.entries()),
        decreases self,
    {
        proof {
            use_type_invariant(self);
            self.lemma_inv();
        }
        let ghost s = self.entries();
        let mut h: u64 = HASH_START;
        let mut i: usize = 0;
        while i < self.keys.len()
            invariant
                i <= self.keys.len(),
                self.keys.len() == self.vals.len(),
                s == self.entries(),
                h == entries_hash(s.take(i as int)),
            decreases self.keys.len() - i,
        {
            proof {
                assert(s.take(i as int + 1).drop_last() =~= s.take(i as int));
            }
            let hk = self.keys[i].hash_code();
            let hv = self.vals[i].hash_code();
            h = fold(fold(h, hk), hv);
            i += 1;
        }
        proof {
            assert(s.take(i as int) =~= s);
        }
        h
    }

    /// Creates new table with capacity.
    pub fn with_capacity(capacity: usize) -> (t: Table)
        ensures
            t@ == Map::<ValueView, ValueView>::empty(),
            t.entries().len() == 0,
    {
        let t = Table { keys: Vec::with_capacity(capacity), vals: Vec::with_capacity(capacity) };
        proof {
            assert(t@ =~= Map::<ValueView, ValueView>::empty());
        }
        t
    }

    /// The number of entries.
    pub fn len(&self) -> (n: usize)
        ensures
            n == self@.len(),
            n == self.entries().len(),
    {
        proof {
            use_type_invariant(self);
            self.lemma_inv();
            lemma_map_len(self.entries());
        }
        self.keys.len()
    }

    /// Whether the table has no entry.
    pub fn is_empty(&self) -> (r: bool)
        ensures
            r == (self@.len() == 0),
    {
        self.len() == 0
    }

    /// Finds the place of a key by bisection: where it stands, or else where
    /// it belongs.
    fn locate(&self, probe: &Probe) -> (r: (bool, usize))
        ensures
            r.1 <= self.entries().len(),
            r.0 ==> r.1 < self.entries().len() && self.entries()[r.1 as int].0 == probe@,
            !r.0 ==> splits(self.entries(), probe@, r.1 as int),
    {
        proof {
            use_type_invariant(self);
            self.lemma_inv();
        }
        let ghost s = self.entries();
        let mut lo: usize = 0;
        let mut hi: usize = self.keys.len();
        while lo < hi
            invariant
                lo <= hi <= self.keys.len(),
                self.keys.len() == self.vals.len(),
                s == self.entries(),
                s.len() == self.keys.len(),
                sorted(s),
                forall|j: int| 0 <= j < lo ==> value_order((#[trigger] s[j]).0, probe@) < 0,
                forall|j: int| hi <= j < s.len() ==> value_order(probe@, (#[trigger] s[j]).0) < 0,
            decreases hi - lo,
        {
            let mid: usize = lo + (hi - lo) / 2;
            let c = probe.compare(&self.keys[mid]);
            let ghost m = s[mid as int].0;
            match c {
                Order::Equal => {
                    proof {
                        lemma_order_eq(probe@, m);
                    }
                    return (true, mid);
                },
                Order::Less => {
                    proof {
                        assert forall|j: int| mid <= j < s.len() implies value_order(
                            probe@,
                            (#[trigger] s[j]).0,
                        ) < 0 by {
                            if j > mid {
                                assert(value_order(s[mid as int].0, s[j].0) < 0);
                                lemma_order_trans(probe@, m, s[j].0);
                            }
                        }
                    }
                    hi = mid;
                },
                Order::Greater => {
                    proof {
                        lemma_order_flip(probe@, m);
                        assert forall|j: int| 0 <= j < mid + 1 implies value_order(
                            (#[trigger] s[j]).0,
                            probe@,
                        ) < 0 by {
                            if j < mid {
                                assert(value_order(s[j].0, s[mid as int].0) < 0);
                                lemma_order_trans(s[j].0, m, probe@);
                            }
                        }
                    }
                    lo = mid + 1;
                },
            }
        }
        (false, lo)
    }

    /// The value stored under what is looked for.
    fn find(&self, probe: &Probe) -> (r: Option<&Value>)
        ensures
            match r {
                Some(v) => self@.contains_key(probe@) && v@ == self@[probe@],
                None => !self@.contains_key(probe@),
            },
    {
        proof {
            use_type_invariant(self);
            self.lemma_inv();
        }
        let (found, idx) = self.locate(probe);
        if found {
            proof {
                lemma_index_of(self.entries(), idx as int);
            }
            Some(&self.vals[idx])
        } else {
            proof {
                lemma_splits_absent(self.entries(), probe@, idx as int);
            }
            None
        }
    }

    /// The value stored under a key, if the table has the key. Keys are
    /// found by their content: an equal text or an equal table finds the
    /// entry, whoever allocated it.
    pub fn get(&self, key: &Value) -> (r: Option<&Value>)
        ensures
            match r {
                Some(v) => self@.contains_key(key@) && v@ == self@[key@],
                None => !self@.contains_key(key@),
            },
    {
        self.find(&Probe::Value(key))
    }

    /// The value stored under the string key with the given text, if any.
    pub fn get_str(&self, key: &str) -> (r: Option<&Value>)
        ensures
            match r {
                Some(v) => self@.contains_key(ValueView::String(key@)) && v@ == self@[ValueView::String(
                    key@,
                )],
                None => !self@.contains_key(ValueView::String(key@)),
            },
    {
        self.find(&Probe::Text(key))
    }

    /// Whether the table has the key.
    pub fn contains_key(&self, key: &Value) -> (r: bool)
        ensures
            r == self@.contains_key(key@),
    {
        self.find(&Probe::Value(key)).is_some()
    }

    /// The entry at a place in ascending key order, for walking the table.
    pub fn entry_at(&self, i: usize) -> (r: Option<(&Value, &Value)>)
        ensures
            match r {
                Some((k, v)) => i < self.entries().len() && (k@, v@) == self.entries()[i as int],
                None => i >= self.entries().len(),
            },
    {
        proof {
            use_type_invariant(self);
            self.lemma_inv();
        }
        if i < self.keys.len() {
            Some((&self.keys[i], &self.vals[i]))
        } else {
            None
        }
    }

    /// Puts a new entry where its key belongs.
    fn put(&mut self, idx: usize, key: Value, value: Value)
        requires
            splits(old(self).entries(), key@, idx as int),
        ensures
            final(self).entries() == old(self).entries().insert(idx as int, (key@, value@)),
            final(self)@ == old(self)@.insert(key@, value@),
    {
        proof {
            use_type_invariant(&*self);
            self.lemma_inv();
            lemma_insert(self.entries(), idx as int, key@, value@);
        }
        let mut taken = Table::new();
        std::mem::swap(self, &mut taken);
        let Table { mut keys, mut vals } = taken;
        keys.insert(idx, key);
        vals.insert(idx, value);
        proof {
            lemma_zip_sorted(seq_views(keys@), seq_views(vals@));
            assert(seq_views(keys@) =~= seq_views(old(self).keys@).insert(idx as int, key@));
            assert(seq_views(vals@) =~= seq_views(old(self).vals@).insert(idx as int, value@));
            assert(zip(seq_views(keys@), seq_views(vals@)) =~= old(self).entries().insert(
                idx as int,
                (key@, value@),
            ));
        }
        *self = Table { keys, vals };
    }

    /// Stores a value under a key and hands back the value that the key had
    /// before, if it had one.
    pub fn insert(&mut self, key: Value, value: Value) -> (r: Option<Value>)
        ensures
            final(self)@ == old(self)@.insert(key@, value@),
            match r {
                Some(prior) => old(self)@.contains_key(key@) && prior@ == old(self)@[key@],
                None => !old(self)@.contains_key(key@),
            },
    {
        proof {
            use_type_invariant(&*self);
            self.lemma_inv();
        }
        let (found, idx) = self.locate(&Probe::Value(&key));
        if found {
            let ghost before = self.entries();
            let ghost stored = value@;
            proof {
                lemma_index_of(before, idx as int);
                lemma_update(before, idx as int, stored);
            }
            let mut value = value;
            std::mem::swap(&mut self.vals[idx], &mut value);
            proof {
                assert(self.entries() =~= before.update(idx as int, (before[idx as int].0, stored)));
            }
            Some(value)
        } else {
            proof {
                lemma_splits_absent(self.entries(), key@, idx as int);
            }
            self.put(idx, key, value);
            None
        }
    }

    /// Takes a key out of the table and hands back the value that it had, if
    /// it had one.
    pub fn remove(&mut self, key: &Value) -> (r: Option<Value>)
        ensures
            final(self)@ == old(self)@.remove(key@),
            match r {
                Some(prior) => old(self)@.contains_key(key@) && prior@ == old(self)@[key@],
                None => !old(self)@.contains_key(key@),
            },
    {
        proof {
            use_type_invariant(&*self);
            self.lemma_inv();
        }
        let (found, idx) = self.locate(&Probe::Value(key));
        if found {
            proof {
                lemma_index_of(self.entries(), idx as int);
                lemma_remove(self.entries(), idx as int);
            }
            let mut taken = Table::new();
            std::mem::swap(self, &mut taken);
            let Table { mut keys, mut vals } = taken;
            keys.remove(idx);
            let prior = vals.remove(idx);
            proof {
                lemma_zip_sorted(seq_views(keys@), seq_views(vals@));
                assert(seq_views(keys@) =~= seq_views(old(self).keys@).remove(idx as int));
                assert(seq_views(vals@) =~= seq_views(old(self).vals@).remove(idx as int));
                assert(zip(seq_views(keys@), seq_views(vals@)) =~= old(self).entries().remove(
                    idx as int,
                ));
            }
            *self = Table { keys, vals };
            Some(prior)
        } else {
            proof {
                lemma_splits_absent(self.entries(), key@, idx as int);
                assert(self@.remove(key@) =~= self@);
            }
            None
        }
    }

    /// Takes every entry out of the table.
    pub fn clear(&mut self)
        ensures
            final(self)@ == Map::<ValueView, ValueView>::empty(),
            final(self).entries().len() == 0,
    {
        let mut taken = Table::new();
        std::mem::swap(self, &mut taken);
        let Table { mut keys, mut vals } = taken;
        keys.clear();
        vals.clear();
        *self = Table { keys, vals };
        proof {
            assert(self@ =~= Map::<ValueView, ValueView>::empty());
        }
    }

    /// Makes sure that what is looked for has an entry, one with a null
    /// value where it had none, and gives the place of the entry.
    fn vivify(&mut self, probe: &Probe) -> (idx: usize)
        ensures
            final(self)@ == (if old(self)@.contains_key(probe@) {
                old(self)@
            } else {
                old(self)@.insert(probe@, ValueView::Null)
            }),
            idx < final(self).entries().len(),
            final(self).entries()[idx as int].0 == probe@,
            final(self).entries()[idx as int].1 == final(self)@[probe@],
    {
        proof {
            use_type_invariant(&*self);
            self.lemma_inv();
        }
        let (found, idx) = self.locate(probe);
        if found {
            proof {
                lemma_index_of(self.entries(), idx as int);
            }
        } else {
            proof {
                lemma_splits_absent(self.entries(), probe@, idx as int);
            }
            self.put(idx, probe.to_key(), Value::Null);
        }
        idx
    }

    /// The slot of the value at a place.
    fn slot_at(&mut self, idx: usize) -> (r: &mut Value)
        requires
            idx < old(self).entries().len(),
        ensures
            r@ == old(self).entries()[idx as int].1,
            final(self)@ == old(self)@.insert(old(self).entries()[idx as int].0, final(r)@),
    {
        let ghost es = self.entries();
        let ghost ks = self.keys@;
        let ghost vs = self.vals@;
        proof {
            use_type_invariant(&*self);
            self.lemma_inv();
            assert forall|v: Value|
                entries_map(zip(seq_views(ks), seq_views(#[trigger] vs.update(idx as int, v))))
                    == entries_map(es).insert(es[idx as int].0, v@) by {
                lemma_update(es, idx as int, v@);
                assert(zip(seq_views(ks), seq_views(vs.update(idx as int, v))) =~= es.update(
                    idx as int,
                    (es[idx as int].0, v@),
                ));
            }
        }
        &mut self.vals[idx]
    }
}

impl core::ops::Index<Value> for Table {
    type Output = Value;

    /// The value stored under a key that the table has.
    fn index(&self, index: Value) -> (r: &Value)
        ensures
            r@ == self@[index@],
    {
        match self.find(&Probe::Value(&index)) {
            Some(v) => v,
            None => vstd::pervasive::unreached(),
        }
    }
}

impl vstd::std_specs::core::IndexSpecImpl<Value> for Table {
    open spec fn index_req(&self, index: &Value) -> bool {
        self@.contains_key(index@)
    }
}

impl core::ops::Index<usize> for Table {
    type Output = Value;

    /// The value stored under an integer key that the table has.
    fn index(&self, index: usize) -> (r: &Value)
        ensures
            r@ == self@[ValueView::Usize(index)],
    {
        let key = Value::Usize(index);
        match self.find(&Probe::Value(&key)) {
            Some(v) => v,
            None => vstd::pervasive::unreached(),
        }
    }
}

impl vstd::std_specs::core::IndexSpecImpl<usize> for Table {
    open spec fn index_req(&self, index: &usize) -> bool {
        self@.contains_key(ValueView::Usize(*index))
    }
}

impl<'b> core::ops::Index<&'b str> for Table {
    type Output = Value;

    /// The value stored under a string key that the table has.
    fn index(&self, index: &'b str) -> (r: &Value)
        ensures
            r@ == self@[ValueView::String(index@)],
    {
        match self.find(&Probe::Text(index)) {
            Some(v) => v,
            None => vstd::pervasive::unreached(),
        }
    }
}

impl<'b> vstd::std_specs::core::IndexSpecImpl<&'b str> for Table {
    open spec fn index_req(&self, index: &&'b str) -> bool {
        self@.contains_key(ValueView::String(index@))
    }
}

impl core::ops::IndexMut<Value> for Table {
    /// The slot of a key, for writing. A key that the table lacks is first
    /// stored with a null value.
    fn index_mut(&mut self, index: Value) -> (r: &mut Value)
        ensures
            r@ == (if old(self)@.contains_key(index@) {
                old(self)@[index@]
            } else {
                ValueView::Null
            }),
            final(self)@ == old(self)@.insert(index@, final(r)@),
    {
        let idx = self.vivify(&Probe::Value(&index));
        self.slot_at(idx)
    }
}

impl core::ops::IndexMut<usize> for Table {
    /// The slot of an integer key, for writing. A key that the table lacks
    /// is first stored with a null value.
    fn index_mut(&mut self, index: usize) -> (r: &mut Value)
        ensures
            r@ == (if old(self)@.contains_key(ValueView::Usize(index)) {
                old(self)@[ValueView::Usize(index)]
            } else {
                ValueView::Null
            }),
            final(self)@ == old(self)@.insert(ValueView::Usize(index), final(r)@),
    {
        let key = Value::Usize(index);
        let idx = self.vivify(&Probe::Value(&key));
        self.slot_at(idx)
    }
}

impl<'b> core::ops::IndexMut<&'b str> for Table {
    /// The slot of a string key, for writing. A key that the table lacks is
    /// first stored, in a copy of the text, with a null value.
    fn index_mut(&mut self, index: &'b str) -> (r: &mut Value)
        ensures
            r@ == (if old(self)@.contains_key(ValueView::String(index@)) {
                old(self)@[ValueView::String(index@)]
            } else {
                ValueView::Null
            }),
            final(self)@ == old(self)@.insert(ValueView::String(index@), final(r)@),
    {
        let idx = self.vivify(&Probe::Text(index));
        self.slot_at(idx)
    }
}

impl Clone for Table {
    /// A table with the same entries; texts and tables among them are
    /// shared with the table that was cloned.
    fn clone(&self) -> (r: Table)
        ensures
            r.entries() == self.entries(),
            r@ == self@,
    {
        proof {
            use_type_invariant(self);
            self.lemma_inv();
        }
        let n: usize = self.keys.len();
        let mut keys: Vec<Value> = Vec::with_capacity(n);
        let mut vals: Vec<Value> = Vec::with_capacity(n);
        let mut i: usize = 0;
        while i < n
            invariant
                i <= n,
                n == self.keys.len(),
                n == self.vals.len(),
                keys@.len() == i,
                vals@.len() == i,
                seq_views(keys@) == seq_views(self.keys@).take(i as int),
                seq_views(vals@) == seq_views(self.vals@).take(i as int),
            decreases n - i,
        {
            keys.push(self.keys[i].clone());
            vals.push(self.vals[i].clone());
            i += 1;
        }
        proof {
            assert(seq_views(keys@) =~= seq_views(self.keys@));
            assert(seq_views(vals@) =~= seq_views(self.vals@));
        }
        Table { keys, vals }
    }
}

impl PartialEq for Table {
    /// Two tables are equal when they map the same keys to the same values.
    fn eq(&self, other: &Table) -> (r: bool) {
        proof {
            use_type_invariant(self);
            use_type_invariant(other);
            self.lemma_inv();
            other.lemma_inv();
            lemma_entries_order_eq(self.entries(), other.entries());
            if self@ == other@ {
                lemma_sorted_unique(self.entries(), other.entries());
            }
        }
        self.compare(other) == Order::Equal
    }
}

impl vstd::std_specs::cmp::PartialEqSpecImpl for Table {
    open spec fn obeys_eq_spec() -> bool {
        true
    }

    open spec fn eq_spec(&self, other: &Table) -> bool {
        self@ == other@
    }
}

impl Eq for Table {

}

impl core::hash::Hash for Table {
    /// Feeds the hash of the table to the hasher.
    fn hash<S: core::hash::Hasher>(&self, state: &mut S) {
        feed(state, self.hash_code());
    }
}

} // verus!
