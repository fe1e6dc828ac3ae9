//! The dynamically typed value.

use vstd::prelude::*;
use std::sync::Arc;
use crate::float::F64;
use crate::hasher::feed;
use crate::model::{
    bytes_hash, bytes_order, int_order, lemma_order_eq, mix, text_order, value_hash, value_order,
    Order, ValueView, HASH_PRIME, HASH_START,
};
use crate::table::Table;

verus! {

/// A value of one of eight kinds. A text and a table are shared: cloning the
/// value makes a second handle to the same payload.
#[derive(Debug)]
pub enum Value {
    /// An empty value.
    Null,
    /// A boolean value.
    Bool(bool),
    /// A pointer sized integer.
    Usize(usize),
    /// A 64 bit unsigned integer.
    U64(u64),
    /// A 64 bit signed integer.
    I64(i64),
    /// A 64 bit floating number.
    F64(F64),
    /// A string.
    String(Arc<String>),
    /// A table.
    Table(Arc<Table>),
}

/// What a value is.
pub open spec fn view_of(v: Value) -> ValueView
    decreases v,
{
    match v {
        Value::Null => ValueView::Null,
        Value::Bool(b) => ValueView::Bool(b),
        Value::Usize(n) => ValueView::Usize(n),
        Value::U64(n) => ValueView::U64(n),
        Value::I64(n) => ValueView::I64(n),
        Value::F64(x) => ValueView::F64(x.0),
        Value::String(s) => ValueView::String(s@),
        Value::Table(t) => ValueView::Table(t.entries()),
    }
}

/// What each value of a sequence is.
pub open spec fn seq_views(s: Seq<Value>) -> Seq<ValueView>
    decreases s,
{
    Seq::new(
        s.len(),
        |i: int|
            if 0 <= i < s.len() {
                view_of(s[i])
            } else {
                ValueView::Null
            },
    )
}

impl View for Value {
    type V = ValueView;

    open spec fn view(&self) -> ValueView {
        view_of(*self)
    }
}

/// Three-way comparison of two unsigned integers.
pub fn order_unsigned(a: u64, b: u64) -> (r: Order)
    ensures
        r.sign() == int_order(a as int, b as int),
{
    if a < b {
        Order::Less
    } else if a == b {
        Order::Equal
    } else {
        Order::Greater
    }
}

/// Three-way comparison of two signed integers.
pub fn order_signed(a: i64, b: i64) -> (r: Order)
    ensures
        r.sign() == int_order(a as int, b as int),
{
    if a < b {
        Order::Less
    } else if a == b {
        Order::Equal
    } else {
        Order::Greater
    }
}

/// Lexicographic three-way comparison of two byte strings.
pub fn order_bytes(a: &[u8], b: &[u8]) -> (r: Order)
    ensures
        r.sign() == bytes_order(a@, b@),
{
    proof {
        assert(a@.skip(0) =~= a@);
        assert(b@.skip(0) =~= b@);
    }
    let mut i: usize = 0;
    while i < a.len() && i < b.len()
        invariant
            i <= a.len(),
            i <= b.len(),
            bytes_order(a@, b@) == bytes_order(a@.skip(i as int), b@.skip(i as int)),
        decreases a.len() - i,
    {
        proof {
            assert(a@.skip(i as int).drop_first() =~= a@.skip(i as int + 1));
            assert(b@.skip(i as int).drop_first() =~= b@.skip(i as int + 1));
        }
        if a[i] < b[i] {
            return Order::Less;
        } else if a[i] > b[i] {
            return Order::Greater;
        }
        i += 1;
    }
    if i < b.len() {
        Order::Less
    } else if i < a.len() {
        Order::Greater
    } else {
        Order::Equal
    }
}

/// Three-way comparison of two texts, by their UTF-8 encodings.
pub fn order_text(a: &str, b: &str) -> (r: Order)
    ensures
        r.sign() == text_order(a@, b@),
{
    order_bytes(a.as_bytes(), b.as_bytes())
}

/// One step of the hash: folds the next integer into what was hashed before.
pub fn fold(h: u64, x: u64) -> (r: u64)
    ensures
        r == mix(h, x),
{
    (h ^ x).wrapping_mul(HASH_PRIME)
}

/// The hash of a byte string.
pub fn hash_bytes(b: &[u8]) -> (h: u64)
    ensures
        h == bytes_hash(b@),
{
    let mut h: u64 = HASH_START;
    let mut i: usize = 0;
    while i < b.len()
        invariant
            i <= b.len(),
            h == bytes_hash(b@.take(i as int)),
        decreases b.len() - i,
    {
        proof {
            assert(b@.take(i as int + 1).drop_last() =~= b@.take(i as int));
        }
        h = fold(h, b[i] as u64);
        i += 1;
    }
    proof {
        assert(b@.take(i as int) =~= b@);
    }
    h
}

/// The characters of a text.
pub open spec fn text_of(s: &str) -> Seq<char> {
    s@
}

/// The text that a value lends: that of a string value, and the empty text
/// for every other value.
pub open spec fn text_of_value(v: ValueView) -> Seq<char> {
    match v {
        ValueView::String(s) => s,
        _ => Seq::<char>::empty(),
    }
}

impl Value {
    /// Creates a new floating-point value from the bit pattern of the number.
    pub fn float(bits: u64) -> (v: Value)
        ensures
            v@ == ValueView::F64(bits),
    {
        Value::F64(F64(bits))
    }

    /// Creates a new string value; the text is copied.
    pub fn str(val: &str) -> (v: Value)
        ensures
            v@ == ValueView::String(val@),
    {
        Value::String(Arc::new(val.to_owned()))
    }

    /// Creates a new table value; the table moves into shared ownership.
    pub fn table(val: Table) -> (v: Value)
        ensures
            v@ == ValueView::Table(val.entries()),
    {
        Value::Table(Arc::new(val))
    }

    /// The text of a string value, and the empty text for every other value:
    /// what a value is looked up by where the key is a text.
    pub fn as_str(&self) -> (r: &str)
        ensures
            r@ == (match self@ {
                ValueView::String(s) => s,
                _ => Seq::<char>::empty(),
            }),
    {
        match self {
            Value::String(text) => text.as_str(),
            _ => {
                proof {
                    reveal_strlit("");
                }
                ""
            },
        }
    }

    /// The place of the value's variant among the variants.
    pub fn rank(&self) -> (r: u64)
        ensures
            r == crate::model::rank(self@),
    {
        match self {
            Value::Null => 0,
            Value::Bool(_) => 1,
            Value::Usize(_) => 2,
            Value::U64(_) => 3,
            Value::I64(_) => 4,
            Value::F64(_) => 5,
            Value::String(_) => 6,
            Value::Table(_) => 7,
        }
    }

    /// Three-way comparison in the order in which a table keeps its keys.
    pub fn compare(&self, other: &Value) -> (r: Order)
        ensures
            r.sign() == value_order(self@, other@),
        decreases self,
    {
        match (self, other) {
            (Value::Bool(a), Value::Bool(b)) => order_unsigned(
                if *a { 1 } else { 0 },
                if *b { 1 } else { 0 },
            ),
            (Value::Usize(a), Value::Usize(b)) => order_unsigned(*a as u64, *b as u64),
            (Value::U64(a), Value::U64(b)) => order_unsigned(*a, *b),
            (Value::I64(a), Value::I64(b)) => order_signed(*a, *b),
            (Value::F64(a), Value::F64(b)) => order_unsigned(a.0, b.0),
            (Value::String(a), Value::String(b)) => order_text(a.as_str(), b.as_str()),
            (Value::Table(a), Value::Table(b)) => Table::compare(&**a, &**b),
            _ => order_unsigned(self.rank(), other.rank()),
        }
    }

    /// The hash of the value: equal values have equal hashes.
    pub fn hash_code(&self) -> (h: u64)
        ensures
            h == value_hash(self@),
        decreases self,
    {
        match self {
            Value::Null => 0,
            Value::Bool(b) => if *b {
                1
            } else {
                0
            },
            Value::Usize(n) => *n as u64,
            Value::U64(n) => *n,
            Value::I64(n) => *n as u64,
            Value::F64(x) => x.truncate(),
            Value::String(s) => hash_bytes(s.as_str().as_bytes()),
            Value::Table(t) => Table::hash_code(&**t),
        }
    }
}

/// `Arc::clone`: a second handle to the same payload; nothing is copied.
#[verifier::external_body]
fn share<T>(a: &Arc<T>) -> (r: Arc<T>)
    ensures
        *r == **a,
{
    Arc::clone(a)
}

impl Clone for Value {
    /// A text or a table is shared between the value and its clone.
    fn clone(&self) -> (r: Value)
        ensures
            r@ == self@,
    {
        match self {
            Value::Null => Value::Null,
            Value::Bool(b) => Value::Bool(*b),
            Value::Usize(n) => Value::Usize(*n),
            Value::U64(n) => Value::U64(*n),
            Value::I64(n) => Value::I64(*n),
            Value::F64(x) => Value::F64(*x),
            Value::String(s) => Value::String(share(s)),
            Value::Table(t) => Value::Table(share(t)),
        }
    }
}

impl PartialEq for Value {
    /// Two values are equal when they are of the same variant and hold the
    /// same content; texts and tables are compared by content.
    fn eq(&self, other: &Value) -> (r: bool) {
        proof {
            lemma_order_eq(self@, other@);
        }
        self.compare(other) == Order::Equal
    }
}

impl vstd::std_specs::cmp::PartialEqSpecImpl for Value {
    open spec fn obeys_eq_spec() -> bool {
        true
    }

    open spec fn eq_spec(&self, other: &Value) -> bool {
        self@ == other@
    }
}

impl Eq for Value {

}

impl core::hash::Hash for Value {
    /// Feeds the hash of the value to the hasher.
    fn hash<S: core::hash::Hasher>(&self, state: &mut S) {
        feed(state, self.hash_code());
    }
}

impl core::borrow::Borrow<str> for Value {
    /// The text of a string value, and the empty text for every other value.
    fn borrow(&self) -> (r: &str)
        ensures
            text_of(r) == text_of_value(self@),
    {
        self.as_str()
    }
}

impl core::convert::From<usize> for Value {
    fn from(val: usize) -> (v: Value) {
        Value::Usize(val)
    }
}

impl vstd::std_specs::convert::FromSpecImpl<usize> for Value {
    open spec fn obeys_from_spec() -> bool {
        true
    }

    open spec fn from_spec(val: usize) -> Value {
        Value::Usize(val)
    }
}

impl core::convert::From<u64> for Value {
    fn from(val: u64) -> (v: Value) {
        Value::U64(val)
    }
}

impl vstd::std_specs::convert::FromSpecImpl<u64> for Value {
    open spec fn obeys_from_spec() -> bool {
        true
    }

    open spec fn from_spec(val: u64) -> Value {
        Value::U64(val)
    }
}

impl core::convert::From<i64> for Value {
    fn from(val: i64) -> (v: Value) {
        Value::I64(val)
    }
}

impl vstd::std_specs::convert::FromSpecImpl<i64> for Value {
    open spec fn obeys_from_spec() -> bool {
        true
    }

    open spec fn from_spec(val: i64) -> Value {
        Value::I64(val)
    }
}

impl core::convert::From<F64> for Value {
    fn from(val: F64) -> (v: Value) {
        Value::F64(val)
    }
}

impl vstd::std_specs::convert::FromSpecImpl<F64> for Value {
    open spec fn obeys_from_spec() -> bool {
        true
    }

    open spec fn from_spec(val: F64) -> Value {
        Value::F64(val)
    }
}

/// A text is copied into a new allocation, which no expression of the
/// contracts names: `from` states its result by the view instead.
impl<'a> vstd::std_specs::convert::FromSpecImpl<&'a str> for Value {
    open spec fn obeys_from_spec() -> bool {
        false
    }

    open spec fn from_spec(val: &'a str) -> Value {
        Value::Null
    }
}

/// The text moves into a new shared allocation: `from` states its result by
/// the view.
impl vstd::std_specs::convert::FromSpecImpl<String> for Value {
    open spec fn obeys_from_spec() -> bool {
        false
    }

    open spec fn from_spec(val: String) -> Value {
        Value::Null
    }
}

/// The table moves into a new shared allocation: `from` states its result
/// by the view.
impl vstd::std_specs::convert::FromSpecImpl<Table> for Value {
    open spec fn obeys_from_spec() -> bool {
        false
    }

    open spec fn from_spec(val: Table) -> Value {
        Value::Null
    }
}

impl<'a> core::convert::From<&'a str> for Value {
    fn from(val: &'a str) -> (v: Value)
        ensures
            v@ == ValueView::String(val@),
    {
        Value::str(val)
    }
}

impl core::convert::From<String> for Value {
    fn from(val: String) -> (v: Value)
        ensures
            v@ == ValueView::String(val@),
    {
        Value::String(Arc::new(val))
    }
}

impl core::convert::From<Table> for Value {
    fn from(val: Table) -> (v: Value)
        ensures
            v@ == ValueView::Table(val.entries()),
    {
        Value::table(val)
    }
}

} // verus!
