use std::collections::hash_map::DefaultHasher;
use std::hash::{Hash, Hasher};

use table::{Table, Value};

fn std_hash<T: Hash>(x: &T) -> u64 {
    let mut state = DefaultHasher::new();
    x.hash(&mut state);
    state.finish()
}

fn pairs() -> Vec<(Value, Value)> {
    vec![
        (Value::str("name"), Value::str("table")),
        (Value::Usize(0), Value::float(1.0f64.to_bits())),
        (Value::U64(0), Value::Bool(true)),
        (Value::I64(-3), Value::Null),
        (Value::Null, Value::I64(4)),
        (Value::Bool(false), Value::str("")),
        (Value::table(Table::new()), Value::table(Table::new())),
        (Value::float(2.5f64.to_bits()), Value::Usize(7)),
    ]
}

#[test]
fn a_new_table_is_empty() {
    let t = Table::new();
    assert_eq!(t.len(), 0);
    assert!(t.is_empty());
    assert_eq!(t.get(&Value::Null), None);
    assert!(t.entry_at(0).is_none());
    let u = Table::with_capacity(100);
    assert_eq!(u.len(), 0);
    assert!(u.is_empty());
    assert_eq!(t, u);
}

#[test]
fn insert_stores_and_reports_the_prior_value() {
    let mut t = Table::new();
    assert_eq!(t.insert(Value::U64(1), Value::str("one")), None);
    assert_eq!(t.len(), 1);
    assert!(!t.is_empty());
    assert_eq!(t.insert(Value::U64(2), Value::str("two")), None);
    assert_eq!(t.len(), 2);
    assert_eq!(t.insert(Value::U64(1), Value::str("uno")), Some(Value::str("one")));
    assert_eq!(t.len(), 2);
    assert_eq!(t.get(&Value::U64(1)), Some(&Value::str("uno")));
    assert_eq!(t.get(&Value::U64(2)), Some(&Value::str("two")));
    assert_eq!(t.get(&Value::U64(3)), None);
    assert_eq!(t.get(&Value::Usize(1)), None);
    assert_eq!(t.get(&Value::I64(1)), None);
}

#[test]
fn every_kind_of_key_is_found_again() {
    let mut t = Table::new();
    for (k, v) in pairs() {
        assert_eq!(t.insert(k, v), None);
    }
    assert_eq!(t.len(), 8);
    for (k, v) in pairs() {
        assert!(t.contains_key(&k));
        assert_eq!(t.get(&k), Some(&v));
        assert_eq!(t[k], v);
    }
    assert!(!t.contains_key(&Value::str("other")));
    assert!(!t.contains_key(&Value::Bool(true)));
}

#[test]
fn remove_takes_the_entry_out() {
    let mut t = Table::new();
    for (k, v) in pairs() {
        t.insert(k, v);
    }
    assert_eq!(t.remove(&Value::str("name")), Some(Value::str("table")));
    assert_eq!(t.len(), 7);
    assert_eq!(t.remove(&Value::str("name")), None);
    assert_eq!(t.len(), 7);
    assert!(!t.contains_key(&Value::str("name")));
    assert_eq!(t.remove(&Value::Null), Some(Value::I64(4)));
    assert_eq!(t.remove(&Value::table(Table::new())), Some(Value::table(Table::new())));
    assert_eq!(t.len(), 5);
    for (k, v) in pairs() {
        match k {
            Value::String(_) | Value::Null | Value::Table(_) => assert_eq!(t.get(&k), None),
            _ => assert_eq!(t.get(&k), Some(&v)),
        }
    }
}

#[test]
fn clear_empties_the_table() {
    let mut t = Table::new();
    for (k, v) in pairs() {
        t.insert(k, v);
    }
    t.clear();
    assert_eq!(t.len(), 0);
    assert!(t.is_empty());
    assert_eq!(t, Table::new());
    for (k, _) in pairs() {
        assert!(!t.contains_key(&k));
    }
    t.insert(Value::U64(1), Value::U64(2));
    assert_eq!(t.len(), 1);
}

#[test]
fn tables_filled_in_different_orders_are_equal() {
    let mut a = Table::new();
    for (k, v) in pairs() {
        a.insert(k, v);
    }
    let mut b = Table::new();
    for (k, v) in pairs().into_iter().rev() {
        b.insert(k, v);
    }
    let mut c = Table::new();
    let mut shuffled = pairs();
    shuffled.swap(0, 5);
    shuffled.swap(2, 7);
    shuffled.swap(1, 3);
    for (k, v) in shuffled {
        c[k] = v;
    }
    assert_eq!(a, b);
    assert_eq!(a, c);
    assert_eq!(a.hash_code(), b.hash_code());
    assert_eq!(a.hash_code(), c.hash_code());
    assert_eq!(std_hash(&a), std_hash(&b));
    assert_eq!(std_hash(&a), std_hash(&c));
    assert_eq!(Value::table(a.clone()), Value::table(b));
    assert_eq!(std_hash(&Value::table(a)), std_hash(&Value::table(c)));
}

#[test]
fn tables_with_different_content_differ() {
    let mut a = Table::new();
    a.insert(Value::U64(1), Value::U64(2));
    let mut b = Table::new();
    b.insert(Value::U64(1), Value::U64(3));
    let mut c = Table::new();
    c.insert(Value::U64(2), Value::U64(2));
    let mut d = a.clone();
    d.insert(Value::U64(5), Value::Null);
    assert_ne!(a, b);
    assert_ne!(a, c);
    assert_ne!(a, d);
    assert_ne!(a, Table::new());
    assert_ne!(a.hash_code(), b.hash_code());
}

#[test]
fn a_clone_has_the_same_entries_and_a_life_of_its_own() {
    let mut a = Table::new();
    for (k, v) in pairs() {
        a.insert(k, v);
    }
    let mut b = a.clone();
    assert_eq!(a, b);
    assert_eq!(b.len(), 8);
    b.insert(Value::str("more"), Value::Null);
    assert_eq!(a.len(), 8);
    assert_eq!(b.len(), 9);
    assert_ne!(a, b);
}

#[test]
fn writing_to_an_absent_key_stores_null_first() {
    let mut t = Table::new();
    {
        let slot = &mut t[5];
        assert_eq!(*slot, Value::Null);
    }
    assert_eq!(t.len(), 1);
    assert_eq!(t[5], Value::Null);
    assert_eq!(t.get(&Value::Usize(5)), Some(&Value::Null));
    {
        let slot = &mut t["text"];
        assert_eq!(*slot, Value::Null);
    }
    assert_eq!(t.get_str("text"), Some(&Value::Null));
    assert_eq!(t.get(&Value::str("text")), Some(&Value::Null));
    {
        let slot = &mut t[Value::Bool(true)];
        assert_eq!(*slot, Value::Null);
    }
    assert_eq!(t[Value::Bool(true)], Value::Null);
    assert_eq!(t.len(), 3);
}

#[test]
fn writing_to_a_present_key_keeps_the_other_entries() {
    let mut t = Table::new();
    t[0] = Value::U64(10);
    t[1] = Value::U64(11);
    t["a"] = Value::U64(12);
    {
        let slot = &mut t[1];
        assert_eq!(*slot, Value::U64(11));
        *slot = Value::str("changed");
    }
    assert_eq!(t.len(), 3);
    assert_eq!(t[0], Value::U64(10));
    assert_eq!(t[1], Value::str("changed"));
    assert_eq!(t["a"], Value::U64(12));
    t["a"] = Value::Null;
    assert_eq!(t["a"], Value::Null);
    assert_eq!(t.len(), 3);
}

#[test]
fn an_integer_index_is_a_usize_key() {
    let mut t = Table::new();
    t[3] = Value::str("three");
    assert_eq!(t.get(&Value::Usize(3)), Some(&Value::str("three")));
    assert_eq!(t.get(&Value::U64(3)), None);
    assert_eq!(t[Value::Usize(3)], Value::str("three"));
    t.insert(Value::Usize(1_000_000), Value::Null);
    assert_eq!(t[1_000_000], Value::Null);
    assert_eq!(t.len(), 2);
}

#[test]
fn a_text_finds_the_string_key() {
    let mut t = Table::new();
    t.insert(Value::str("hello"), Value::U64(1));
    t.insert(Value::Null, Value::U64(2));
    t.insert(Value::U64(0), Value::U64(3));
    assert_eq!(t.get_str("hello"), Some(&Value::U64(1)));
    assert_eq!(t["hello"], Value::U64(1));
    assert_eq!(t.get_str("hell"), None);
    assert_eq!(t.get_str("hello2"), None);
    assert_eq!(t.get_str(""), None);
    t[""] = Value::U64(4);
    assert_eq!(t.get_str(""), Some(&Value::U64(4)));
    assert_eq!(t.get(&Value::Null), Some(&Value::U64(2)));
    assert_eq!(t.len(), 4);
}

#[test]
fn a_table_is_a_key() {
    let mut inner = Table::new();
    inner.insert(Value::U64(1), Value::U64(2));
    let mut t = Table::new();
    t[Value::table(Table::new())] = Value::str("empty");
    t[Value::table(inner.clone())] = Value::str("one entry");
    assert_eq!(t.len(), 2);
    assert_eq!(t.get(&Value::table(Table::new())), Some(&Value::str("empty")));
    let mut same = Table::new();
    same.insert(Value::U64(1), Value::U64(2));
    assert_eq!(t[Value::table(same)], Value::str("one entry"));
    inner.insert(Value::U64(3), Value::Null);
    assert_eq!(t.get(&Value::table(inner)), None);
}

#[test]
fn the_entries_come_in_ascending_key_order() {
    let mut t = Table::new();
    for (k, v) in pairs() {
        t.insert(k, v);
    }
    let mut i = 0;
    let mut keys: Vec<Value> = Vec::new();
    while let Some((k, v)) = t.entry_at(i) {
        assert_eq!(t.get(k), Some(v));
        keys.push(k.clone());
        i += 1;
    }
    assert_eq!(i, 8);
    assert!(t.entry_at(8).is_none());
    let expected = vec![
        Value::Null,
        Value::Bool(false),
        Value::Usize(0),
        Value::U64(0),
        Value::I64(-3),
        Value::float(2.5f64.to_bits()),
        Value::str("name"),
        Value::table(Table::new()),
    ];
    assert_eq!(keys, expected);
}

#[test]
fn many_keys_are_kept_apart() {
    let mut t = Table::new();
    let mut n: u64 = 0;
    while n < 500 {
        let k = (n * 7919) % 1009;
        t.insert(Value::U64(k), Value::U64(n));
        t[k as usize] = Value::I64(-(n as i64));
        n += 1;
    }
    assert_eq!(t.len(), 1000);
    n = 0;
    while n < 500 {
        let k = (n * 7919) % 1009;
        assert_eq!(t.get(&Value::U64(k)), Some(&Value::U64(n)));
        assert_eq!(t[k as usize], Value::I64(-(n as i64)));
        n += 1;
    }
    n = 0;
    while n < 500 {
        let k = (n * 7919) % 1009;
        assert_eq!(t.remove(&Value::U64(k)), Some(Value::U64(n)));
        n += 1;
    }
    assert_eq!(t.len(), 500);
}

#[test]
fn a_shared_table_is_copied_before_it_is_written() {
    let mut inner = Table::new();
    inner.insert(Value::U64(1), Value::U64(2));
    let first = Value::table(inner);
    let mut second = first.clone();
    if let Value::Table(ref mut shared) = second {
        assert_eq!(std::sync::Arc::strong_count(shared), 2);
        std::sync::Arc::make_mut(shared)[0] = Value::float(1.0f64.to_bits());
        assert_eq!(std::sync::Arc::strong_count(shared), 1);
        assert_eq!(shared.len(), 2);
    } else {
        panic!("a clone of a table value is a table value");
    }
    if let Value::Table(ref kept) = first {
        assert_eq!(kept.len(), 1);
        assert_eq!(kept.get(&Value::U64(1)), Some(&Value::U64(2)));
        assert_eq!(kept.get(&Value::Usize(0)), None);
    } else {
        panic!("a table value holds a table");
    }
    assert_ne!(first, second);
}
