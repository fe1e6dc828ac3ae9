//! The mathematical model of a value, the order in which a table keeps its
//! keys, and the hash of a value.

use vstd::prelude::*;
use vstd::utf8::encode_utf8;
use crate::float::truncated;

verus! {

/// What a value is: the view that all contracts speak of.
///
/// A floating-point number is its bit pattern. A table is the list of its
/// entries, key and value, with keys strictly ascending by [`value_order`].
pub ghost enum ValueView {
    Null,
    Bool(bool),
    Usize(usize),
    U64(u64),
    I64(i64),
    F64(u64),
    String(Seq<char>),
    Table(Seq<(ValueView, ValueView)>),
}

/// The outcome of a three-way comparison.
#[derive(Clone, Copy, Debug, PartialEq, Eq, Structural)]
pub enum Order {
    Less,
    Equal,
    Greater,
}

impl Order {
    /// -1, 0 or 1.
    pub open spec fn sign(self) -> int {
        match self {
            Order::Less => -1,
            Order::Equal => 0,
            Order::Greater => 1,
        }
    }
}

/// The place of a variant among the variants.
pub open spec fn rank(v: ValueView) -> int {
    match v {
        ValueView::Null => 0,
        ValueView::Bool(_) => 1,
        ValueView::Usize(_) => 2,
        ValueView::U64(_) => 3,
        ValueView::I64(_) => 4,
        ValueView::F64(_) => 5,
        ValueView::String(_) => 6,
        ValueView::Table(_) => 7,
    }
}

/// Three-way comparison of integers: -1, 0 or 1.
pub open spec fn int_order(a: int, b: int) -> int {
    if a < b {
        -1
    } else if a == b {
        0
    } else {
        1
    }
}

/// Lexicographic three-way comparison of byte strings.
pub open spec fn bytes_order(s: Seq<u8>, t: Seq<u8>) -> int
    decreases s.len(),
{
    if s.len() == 0 {
        if t.len() == 0 {
            0
        } else {
            -1
        }
    } else if t.len() == 0 {
        1
    } else if s[0] != t[0] {
        int_order(s[0] as int, t[0] as int)
    } else {
        bytes_order(s.drop_first(), t.drop_first())
    }
}

/// Texts are ordered by their UTF-8 encodings, byte by byte.
pub open spec fn text_order(s: Seq<char>, t: Seq<char>) -> int {
    bytes_order(encode_utf8(s), encode_utf8(t))
}

/// The total order on values: -1, 0 or 1 as `a` is below, equal to or above
/// `b`. Values of different variants are ordered by [`rank`]; two tables by
/// their entries, the first difference deciding.
pub open spec fn value_order(a: ValueView, b: ValueView) -> int
    decreases a,
{
    match (a, b) {
        (ValueView::Bool(x), ValueView::Bool(y)) => int_order(
            if x { 1 } else { 0 },
            if y { 1 } else { 0 },
        ),
        (ValueView::Usize(x), ValueView::Usize(y)) => int_order(x as int, y as int),
        (ValueView::U64(x), ValueView::U64(y)) => int_order(x as int, y as int),
        (ValueView::I64(x), ValueView::I64(y)) => int_order(x as int, y as int),
        (ValueView::F64(x), ValueView::F64(y)) => int_order(x as int, y as int),
        (ValueView::String(s), ValueView::String(t)) => text_order(s, t),
        (ValueView::Table(s), ValueView::Table(t)) => entries_order(s, t),
        _ => int_order(rank(a), rank(b)),
    }
}

/// Lexicographic comparison of two lists of entries; within an entry the key
/// is compared before the value.
pub open spec fn entries_order(s: Seq<(ValueView, ValueView)>, t: Seq<(ValueView, ValueView)>) -> int
    decreases s,
{
    if s.len() == 0 {
        if t.len() == 0 {
            0
        } else {
            -1
        }
    } else if t.len() == 0 {
        1
    } else if value_order(s[0].0, t[0].0) != 0 {
        value_order(s[0].0, t[0].0)
    } else if value_order(s[0].1, t[0].1) != 0 {
        value_order(s[0].1, t[0].1)
    } else {
        entries_order(s.drop_first(), t.drop_first())
    }
}

/// Where the hash of a sequence starts: the offset basis of FNV-1a.
pub const HASH_START: u64 = 0xcbf2_9ce4_8422_2325;

/// What each step of the hash multiplies by: the prime of FNV-1a.
pub const HASH_PRIME: u64 = 0x100_0000_01b3;

/// One step of the hash: the next integer is folded into what was hashed
/// before, as FNV-1a folds in a byte.
pub open spec fn mix(h: u64, x: u64) -> u64 {
    (h ^ x).wrapping_mul(HASH_PRIME)
}

/// The hash of a byte string: its bytes folded in from first to last.
pub open spec fn bytes_hash(s: Seq<u8>) -> u64
    decreases s.len(),
{
    if s.len() == 0 {
        HASH_START
    } else {
        mix(bytes_hash(s.drop_last()), s.last() as u64)
    }
}

/// The hash of a value. Null has the hash 0; a boolean 0 or 1; an integer
/// itself, a negative one in two's complement; a floating-point number its
/// truncation to an integer; a text the hash of its UTF-8 encoding; a table
/// the hash of its entries.
pub open spec fn value_hash(v: ValueView) -> u64
    decreases v,
{
    match v {
        ValueView::Null => 0,
        ValueView::Bool(b) => if b {
            1
        } else {
            0
        },
        ValueView::Usize(n) => n as u64,
        ValueView::U64(n) => n,
        ValueView::I64(n) => n as u64,
        ValueView::F64(bits) => truncated(bits),
        ValueView::String(s) => bytes_hash(encode_utf8(s)),
        ValueView::Table(s) => entries_hash(s),
    }
}

/// The hash of a list of entries: of each entry in turn the hash of the key
/// and then that of the value are folded in.
pub open spec fn entries_hash(s: Seq<(ValueView, ValueView)>) -> u64
    decreases s,
{
    if s.len() == 0 {
        HASH_START
    } else {
        mix(mix(entries_hash(s.drop_last()), value_hash(s.last().0)), value_hash(s.last().1))
    }
}

/// Two byte strings compare equal exactly when they are the same.
pub proof fn lemma_bytes_order_eq(s: Seq<u8>, t: Seq<u8>)
    ensures
        bytes_order(s, t) == 0 <==> s == t,
    decreases s.len(),
{
    if s.len() == 0 && t.len() == 0 {
        assert(s =~= t);
    } else if s.len() > 0 && t.len() > 0 && s[0] == t[0] {
        lemma_bytes_order_eq(s.drop_first(), t.drop_first());
        if s.drop_first() == t.drop_first() {
            assert(s =~= seq![s[0]] + s.drop_first());
            assert(t =~= seq![t[0]] + t.drop_first());
        }
    }
}

/// Swapping the arguments of [`bytes_order`] negates the result.
pub proof fn lemma_bytes_order_flip(s: Seq<u8>, t: Seq<u8>)
    ensures
        bytes_order(t, s) == -bytes_order(s, t),
    decreases s.len(),
{
    if s.len() > 0 && t.len() > 0 && s[0] == t[0] {
        lemma_bytes_order_flip(s.drop_first(), t.drop_first());
    }
}

/// [`bytes_order`] is transitive, and strict where one of the steps is.
pub proof fn lemma_bytes_order_trans(s: Seq<u8>, t: Seq<u8>, u: Seq<u8>)
    requires
        bytes_order(s, t) <= 0,
        bytes_order(t, u) <= 0,
    ensures
        bytes_order(s, u) <= 0,
        bytes_order(s, t) < 0 || bytes_order(t, u) < 0 ==> bytes_order(s, u) < 0,
    decreases s.len(),
{
    if s.len() > 0 && t.len() > 0 && u.len() > 0 && s[0] == t[0] && t[0] == u[0] {
        lemma_bytes_order_trans(s.drop_first(), t.drop_first(), u.drop_first());
    }
}

/// Two texts compare equal exactly when they are the same.
pub proof fn lemma_text_order_eq(s: Seq<char>, t: Seq<char>)
    ensures
        text_order(s, t) == 0 <==> s == t,
{
    lemma_bytes_order_eq(encode_utf8(s), encode_utf8(t));
    vstd::utf8::encode_utf8_decode_utf8(s);
    vstd::utf8::encode_utf8_decode_utf8(t);
}

/// Two values compare equal exactly when they are the same value.
pub proof fn lemma_order_eq(a: ValueView, b: ValueView)
    ensures
        value_order(a, b) == 0 <==> a == b,
    decreases a,
{
    match (a, b) {
        (ValueView::String(s), ValueView::String(t)) => {
            lemma_text_order_eq(s, t);
        },
        (ValueView::Table(s), ValueView::Table(t)) => {
            lemma_entries_order_eq(s, t);
        },
        _ => {},
    }
}

/// Two lists of entries compare equal exactly when they are the same list.
pub proof fn lemma_entries_order_eq(s: Seq<(ValueView, ValueView)>, t: Seq<(ValueView, ValueView)>)
    ensures
        entries_order(s, t) == 0 <==> s == t,
    decreases s,
{
    if s.len() == 0 && t.len() == 0 {
        assert(s =~= t);
    } else if s.len() > 0 && t.len() > 0 {
        lemma_order_eq(s[0].0, t[0].0);
        lemma_order_eq(s[0].1, t[0].1);
        lemma_entries_order_eq(s.drop_first(), t.drop_first());
        if s[0] == t[0] && s.drop_first() == t.drop_first() {
            assert(s =~= seq![s[0]] + s.drop_first());
            assert(t =~= seq![t[0]] + t.drop_first());
        }
    }
}

/// Swapping the arguments of [`value_order`] negates the result.
pub proof fn lemma_order_flip(a: ValueView, b: ValueView)
    ensures
        value_order(b, a) == -value_order(a, b),
    decreases a,
{
    match (a, b) {
        (ValueView::String(s), ValueView::String(t)) => {
            lemma_bytes_order_flip(encode_utf8(s), encode_utf8(t));
        },
        (ValueView::Table(s), ValueView::Table(t)) => {
            lemma_entries_order_flip(s, t);
        },
        _ => {},
    }
}

/// Swapping the arguments of [`entries_order`] negates the result.
pub proof fn lemma_entries_order_flip(s: Seq<(ValueView, ValueView)>, t: Seq<(ValueView, ValueView)>)
    ensures
        entries_order(t, s) == -entries_order(s, t),
    decreases s,
{
    if s.len() > 0 && t.len() > 0 {
        lemma_order_flip(s[0].0, t[0].0);
        lemma_order_flip(s[0].1, t[0].1);
        lemma_entries_order_flip(s.drop_first(), t.drop_first());
    }
}

/// [`value_order`] is transitive, and strict where one of the steps is.
pub proof fn lemma_order_trans(a: ValueView, b: ValueView, c: ValueView)
    requires
        value_order(a, b) <= 0,
        value_order(b, c) <= 0,
    ensures
        value_order(a, c) <= 0,
        value_order(a, b) < 0 || value_order(b, c) < 0 ==> value_order(a, c) < 0,
    decreases a,
{
    match (a, b, c) {
        (ValueView::String(s), ValueView::String(t), ValueView::String(u)) => {
            lemma_bytes_order_trans(encode_utf8(s), encode_utf8(t), encode_utf8(u));
        },
        (ValueView::Table(s), ValueView::Table(t), ValueView::Table(u)) => {
            lemma_entries_order_trans(s, t, u);
        },
        _ => {},
    }
}

/// [`entries_order`] is transitive, and strict where one of the steps is.
pub proof fn lemma_entries_order_trans(
    s: Seq<(ValueView, ValueView)>,
    t: Seq<(ValueView, ValueView)>,
    u: Seq<(ValueView, ValueView)>,
)
    requires
        entries_order(s, t) <= 0,
        entries_order(t, u) <= 0,
    ensures
        entries_order(s, u) <= 0,
        entries_order(s, t) < 0 || entries_order(t, u) < 0 ==> entries_order(s, u) < 0,
    decreases s,
{
    if s.len() > 0 && t.len() > 0 && u.len() > 0 {
        lemma_order_trans(s[0].0, t[0].0, u[0].0);
        lemma_order_eq(s[0].0, t[0].0);
        lemma_order_eq(t[0].0, u[0].0);
        lemma_order_eq(s[0].0, u[0].0);
        if value_order(s[0].0, t[0].0) == 0 && value_order(t[0].0, u[0].0) == 0 {
            lemma_order_trans(s[0].1, t[0].1, u[0].1);
            lemma_order_eq(s[0].1, t[0].1);
            lemma_order_eq(t[0].1, u[0].1);
            lemma_order_eq(s[0].1, u[0].1);
            if value_order(s[0].1, t[0].1) == 0 && value_order(t[0].1, u[0].1) == 0 {
                lemma_entries_order_trans(s.drop_first(), t.drop_first(), u.drop_first());
            }
        }
    }
}

} // verus!
