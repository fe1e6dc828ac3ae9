//! What holds of values and tables whatever they contain.

use vstd::prelude::*;
use vstd::std_specs::cmp::PartialEqSpec;
use crate::entries::lemma_sorted_unique;
use crate::model::{entries_hash, entries_order, lemma_entries_order_eq, value_hash, ValueView};
use crate::table::Table;
use crate::value::Value;

verus! {

/// Two values that `==` holds equal have the same hash, whatever their
/// variant.
pub proof fn law_equal_values_hash_equal(a: Value, b: Value)
    requires
        a.eq_spec(&b),
    ensures
        value_hash(a@) == value_hash(b@),
{
}

/// Two tables that map the same keys to the same values hold the same
/// entries in the same order: they are equal, they compare equal, they have
/// the same hash, and as values they are the same value.
pub proof fn law_equal_content(a: Table, b: Table)
    requires
        a.wf(),
        b.wf(),
        a@ == b@,
    ensures
        a.entries() == b.entries(),
        a.eq_spec(&b),
        entries_order(a.entries(), b.entries()) == 0,
        entries_hash(a.entries()) == entries_hash(b.entries()),
        ValueView::Table(a.entries()) == ValueView::Table(b.entries()),
{
    a.lemma_sorted();
    b.lemma_sorted();
    lemma_sorted_unique(a.entries(), b.entries());
    lemma_entries_order_eq(a.entries(), b.entries());
}

/// The order in which two different keys are stored does not show: a table
/// that got `k1` and then `k2` and one that got `k2` and then `k1` are equal
/// and have the same hash.
pub proof fn law_insert_order(
    start: Map<ValueView, ValueView>,
    k1: ValueView,
    v1: ValueView,
    k2: ValueView,
    v2: ValueView,
    a: Table,
    b: Table,
)
    requires
        a.wf(),
        b.wf(),
        k1 != k2,
        a@ == start.insert(k1, v1).insert(k2, v2),
        b@ == start.insert(k2, v2).insert(k1, v1),
    ensures
        a.eq_spec(&b),
        a.entries() == b.entries(),
        entries_hash(a.entries()) == entries_hash(b.entries()),
{
    assert(a@ =~= b@);
    law_equal_content(a, b);
}

} // verus!
