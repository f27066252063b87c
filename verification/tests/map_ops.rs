use jsonmap::JsonMap;
use jsonmap::JsonV;

fn as_i64(v: &JsonV<String>) -> Option<i64> {
    match v {
        JsonV::Int64(x) => Some(*x),
        _ => None,
    }
}

#[test]
fn insert_then_get_yields_value() {
    let mut m: JsonMap<String> = JsonMap::new();
    m.insert("alpha".to_string(), JsonV::Int64(7));
    match m.get(&"alpha".to_string()) {
        Some(JsonV::Int64(x)) => assert_eq!(*x, 7),
        _ => panic!("expected Int64(7)"),
    }
    assert!(m.contains_key(&"alpha".to_string()));
    assert!(!m.contains_key(&"beta".to_string()));
    assert!(m.get(&"beta".to_string()).is_none());
}

#[test]
fn insert_twice_overwrites_and_keeps_len() {
    let mut m: JsonMap<String> = JsonMap::new();
    m.insert("k".to_string(), JsonV::Int64(1));
    let len_after_first = m.len();
    m.insert("k".to_string(), JsonV::Int64(2));
    assert_eq!(m.len(), len_after_first);
    assert_eq!(m.len(), 1);
    match m.get(&"k".to_string()) {
        Some(JsonV::Int64(x)) => assert_eq!(*x, 2),
        _ => panic!("expected Int64(2)"),
    }
}

#[test]
fn remove_present_returns_value_and_shrinks() {
    let mut m: JsonMap<String> = JsonMap::new();
    m.insert("a".to_string(), JsonV::Int64(1));
    m.insert("b".to_string(), JsonV::Int64(2));
    let removed = m.remove(&"a".to_string());
    match removed {
        Some(JsonV::Int64(x)) => assert_eq!(x, 1),
        _ => panic!("expected the previous value"),
    }
    assert_eq!(m.len(), 1);
    assert!(!m.contains_key(&"a".to_string()));
}

#[test]
fn remove_absent_returns_none_and_keeps_len() {
    let mut m: JsonMap<String> = JsonMap::new();
    m.insert("a".to_string(), JsonV::Int64(1));
    assert!(m.remove(&"missing".to_string()).is_none());
    assert_eq!(m.len(), 1);
}

#[test]
fn into_pairs_yields_every_entry_exactly_once() {
    let mut m: JsonMap<String> = JsonMap::new();
    m.insert("a".to_string(), JsonV::Int64(1));
    m.insert("b".to_string(), JsonV::Int64(2));
    m.insert("c".to_string(), JsonV::Int64(3));
    let len = m.len();
    let pairs = m.into_pairs();
    assert_eq!(pairs.len(), len);
    let mut seen: Vec<(String, i64)> = pairs
        .iter()
        .map(|(k, v)| (k.clone(), as_i64(v).unwrap()))
        .collect();
    seen.sort();
    assert_eq!(
        seen,
        vec![
            ("a".to_string(), 1),
            ("b".to_string(), 2),
            ("c".to_string(), 3)
        ]
    );
}

#[test]
fn from_pairs_last_write_wins_like_sequential_insert() {
    let pairs = vec![
        ("x".to_string(), JsonV::Int64(1)),
        ("y".to_string(), JsonV::Int64(2)),
        ("x".to_string(), JsonV::Int64(3)),
    ];
    let built: JsonMap<String> = JsonMap::from_pairs(pairs);

    let mut sequential: JsonMap<String> = JsonMap::new();
    sequential.insert("x".to_string(), JsonV::Int64(1));
    sequential.insert("y".to_string(), JsonV::Int64(2));
    sequential.insert("x".to_string(), JsonV::Int64(3));

    assert_eq!(built.len(), sequential.len());
    assert_eq!(built.len(), 2);
    assert_eq!(as_i64(built.get(&"x".to_string()).unwrap()), Some(3));
    assert_eq!(as_i64(built.get(&"y".to_string()).unwrap()), Some(2));
    assert_eq!(
        as_i64(sequential.get(&"x".to_string()).unwrap()),
        Some(3)
    );
}

#[test]
fn empty_map_has_no_entries() {
    let m: JsonMap<String> = JsonMap::new();
    assert_eq!(m.len(), 0);
    assert!(m.keys().is_empty());
    assert!(m.values().is_empty());
    assert!(m.iter().is_empty());
    let d: JsonMap<String> = Default::default();
    assert_eq!(d.len(), 0);
}

#[test]
fn clear_empties_the_map() {
    let mut m: JsonMap<String> = JsonMap::new();
    m.insert("a".to_string(), JsonV::Int64(1));
    m.clear();
    assert_eq!(m.len(), 0);
    assert!(m.get(&"a".to_string()).is_none());
}

#[test]
fn get_mut_mutation_is_visible() {
    let mut m: JsonMap<String> = JsonMap::new();
    m.insert("a".to_string(), JsonV::Int64(1));
    if m.contains_key(&"a".to_string()) {
        let slot = m.get_mut(&"a".to_string());
        *slot = JsonV::Int64(99);
    }
    assert_eq!(as_i64(m.get(&"a".to_string()).unwrap()), Some(99));
}

#[test]
fn keys_and_values_cover_entries() {
    let mut m: JsonMap<String> = JsonMap::new();
    m.insert("a".to_string(), JsonV::Int64(1));
    m.insert("b".to_string(), JsonV::Int64(2));
    let mut keys = m.keys();
    keys.sort();
    assert_eq!(keys, vec!["a".to_string(), "b".to_string()]);
    let mut vals: Vec<i64> = m.values().iter().map(|v| as_i64(v).unwrap()).collect();
    vals.sort();
    assert_eq!(vals, vec![1, 2]);
    let pairs = m.iter();
    assert_eq!(pairs.len(), 2);
}

#[test]
fn integer_keys_work() {
    let mut m: JsonMap<i64> = JsonMap::new();
    m.insert(-5, JsonV::Boolean(true));
    m.insert(10, JsonV::Boolean(false));
    assert_eq!(m.len(), 2);
    assert!(matches!(m.get(&-5), Some(JsonV::Boolean(true))));
    assert!(matches!(m.get(&10), Some(JsonV::Boolean(false))));
}

#[test]
fn conversions_pick_the_matching_variant() {
    let b: JsonV<String> = true.into();
    assert!(matches!(b, JsonV::Boolean(true)));
    let i: JsonV<String> = 42_i32.into();
    assert!(matches!(i, JsonV::Int32(42)));
    let l: JsonV<String> = 42_i64.into();
    assert!(matches!(l, JsonV::Int64(42)));
    let s: JsonV<String> = "hello".into();
    assert!(matches!(s, JsonV::String(ref t) if t == "hello"));
    let o: JsonV<String> = String::from("owned").into();
    assert!(matches!(o, JsonV::String(ref t) if t == "owned"));
    let a: JsonV<String> = vec![JsonV::Int64(1), JsonV::Boolean(false)].into();
    assert!(matches!(a, JsonV::Array(ref items) if items.len() == 2));
    let mut inner: JsonMap<String> = JsonMap::new();
    inner.insert("k".to_string(), JsonV::Int64(1));
    let obj: JsonV<String> = inner.into();
    assert!(matches!(obj, JsonV::Object(ref mm) if mm.len() == 1));
}

#[test]
fn entry_gets_or_inserts() {
    let mut m: JsonMap<String> = JsonMap::new();
    m.insert("present".to_string(), JsonV::Int64(1));
    {
        let slot = m.entry("present".to_string(), JsonV::Int64(0));
        assert!(matches!(*slot, JsonV::Int64(1)));
        *slot = JsonV::Int64(5);
    }
    {
        let slot = m.entry("fresh".to_string(), JsonV::Int64(7));
        assert!(matches!(*slot, JsonV::Int64(7)));
    }
    assert_eq!(m.len(), 2);
    assert_eq!(as_i64(m.get(&"present".to_string()).unwrap()), Some(5));
    assert_eq!(as_i64(m.get(&"fresh".to_string()).unwrap()), Some(7));
}
