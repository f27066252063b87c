use jsonmap::render;
use jsonmap::render_map;
use jsonmap::JsonMap;
use jsonmap::JsonV;

#[test]
fn sample_map_renders_expected_text() {
    let mut m: JsonMap<String> = JsonMap::new();
    m.insert("key1".to_string(), JsonV::Int32(42));
    m.insert("key2".to_string(), JsonV::Float64(format!("{}", 190.5_f64)));
    m.insert("key3".to_string(), JsonV::String("中国".to_string()));
    m.insert(
        "key4".to_string(),
        JsonV::Array(vec![
            JsonV::Int32(1),
            JsonV::String("b".to_string()),
            JsonV::Int32(10),
            JsonV::Float64(format!("{}", 64.0_f64)),
        ]),
    );
    assert_eq!(m.len(), 4);
    let array_text = render(m.get(&"key4".to_string()).unwrap());
    assert_eq!(array_text, "[1, b, 10, 64]");
}

#[test]
fn object_rendering_keeps_trailing_separator() {
    let mut inner: JsonMap<String> = JsonMap::new();
    inner.insert("a".to_string(), JsonV::Int64(1));
    inner.insert("b".to_string(), JsonV::Int64(2));
    let obj: JsonV<String> = JsonV::Object(inner);
    assert_eq!(render(&obj), "{a: 1 , b: 2 , }");
}

#[test]
fn empty_object_renders_as_braces() {
    let empty: JsonMap<String> = JsonMap::new();
    assert_eq!(render_map(&empty), "{}");
    let obj: JsonV<String> = JsonV::Object(JsonMap::new());
    assert_eq!(render(&obj), "{}");
}

#[test]
fn leaves_render_to_plain_text() {
    assert_eq!(render::<String>(&JsonV::Boolean(true)), "true");
    assert_eq!(render::<String>(&JsonV::Boolean(false)), "false");
    assert_eq!(render::<String>(&JsonV::Int64(0)), "0");
    assert_eq!(render::<String>(&JsonV::Int64(-12345)), "-12345");
    assert_eq!(render::<String>(&JsonV::Int32(i32::MIN)), "-2147483648");
    assert_eq!(render::<String>(&JsonV::Int64(i64::MIN)), "-9223372036854775808");
    assert_eq!(render::<String>(&JsonV::Int64(i64::MAX)), "9223372036854775807");
    assert_eq!(
        render::<String>(&JsonV::Float32(format!("{}", 2.5_f32))),
        "2.5"
    );
    assert_eq!(render::<String>(&JsonV::String("raw text".to_string())), "raw text");
    assert_eq!(render::<String>(&JsonV::Array(vec![])), "[]");
}

#[test]
fn integer_keys_render_in_objects() {
    let mut m: JsonMap<i64> = JsonMap::new();
    m.insert(-7, JsonV::Int64(1));
    assert_eq!(render_map(&m), "{-7: 1 , }");
}

#[test]
fn nested_structures_render_recursively() {
    let mut inner: JsonMap<String> = JsonMap::new();
    inner.insert("x".to_string(), JsonV::Int64(5));
    let v: JsonV<String> = JsonV::Array(vec![
        JsonV::Object(inner),
        JsonV::Array(vec![JsonV::Boolean(false)]),
    ]);
    assert_eq!(render(&v), "[{x: 5 , }, [false]]");
}
