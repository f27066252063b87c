use jsonmap::from_value;
use jsonmap::map_from_value;
use jsonmap::map_to_value;
use jsonmap::to_value;
use jsonmap::DecodeError;
use jsonmap::EncodeError;
use jsonmap::JsonMap;
use jsonmap::JsonV;

fn sample_map() -> JsonMap<String> {
    let mut inner: JsonMap<String> = JsonMap::new();
    inner.insert("userid".to_string(), JsonV::String("1000230203".to_string()));
    inner.insert("age".to_string(), JsonV::Int64(29));

    let mut m: JsonMap<String> = JsonMap::new();
    m.insert("key1".to_string(), JsonV::Int64(42));
    m.insert("key2".to_string(), JsonV::Float64(format!("{}", 190.5_f64)));
    m.insert("key3".to_string(), JsonV::String("中国".to_string()));
    m.insert(
        "key4".to_string(),
        JsonV::Array(vec![
            JsonV::Int64(1),
            JsonV::String("b".to_string()),
            JsonV::Int64(10),
            JsonV::Float64(format!("{}", 64.5_f64)),
        ]),
    );
    m.insert("userInfo".to_string(), JsonV::Object(inner));
    m
}

#[test]
fn encode_then_decode_reproduces_the_structure() {
    let m = sample_map();
    let val = map_to_value(&m).unwrap();
    let text = serde_json::to_string(&val).unwrap();
    let parsed: serde_json::Value = serde_json::from_str(&text).unwrap();
    let back = map_from_value(&parsed).unwrap();

    assert_eq!(back.len(), m.len());
    assert!(matches!(
        back.get(&"key1".to_string()),
        Some(JsonV::Int64(42))
    ));
    match back.get(&"key2".to_string()) {
        Some(JsonV::Float64(t)) => assert_eq!(t, "190.5"),
        _ => panic!("expected Float64 back"),
    }
    match back.get(&"key3".to_string()) {
        Some(JsonV::String(t)) => assert_eq!(t, "中国"),
        _ => panic!("expected String back"),
    }
    match back.get(&"key4".to_string()) {
        Some(JsonV::Array(items)) => {
            assert_eq!(items.len(), 4);
            assert!(matches!(items[0], JsonV::Int64(1)));
            assert!(matches!(items[1], JsonV::String(ref t) if t == "b"));
            assert!(matches!(items[2], JsonV::Int64(10)));
            assert!(matches!(items[3], JsonV::Float64(ref t) if t == "64.5"));
        },
        _ => panic!("expected Array back"),
    }
    match back.get(&"userInfo".to_string()) {
        Some(JsonV::Object(inner)) => {
            assert_eq!(inner.len(), 2);
            assert!(matches!(
                inner.get(&"age".to_string()),
                Some(JsonV::Int64(29))
            ));
        },
        _ => panic!("expected nested Object back"),
    }
}

#[test]
fn narrow_widths_come_back_widened() {
    let mut m: JsonMap<String> = JsonMap::new();
    m.insert("i".to_string(), JsonV::Int32(42));
    m.insert("f".to_string(), JsonV::Float32(format!("{}", 2.5_f32)));
    let val = map_to_value(&m).unwrap();
    let back = map_from_value(&val).unwrap();
    assert!(matches!(back.get(&"i".to_string()), Some(JsonV::Int64(42))));
    assert!(matches!(
        back.get(&"f".to_string()),
        Some(JsonV::Float64(ref t)) if t == "2.5"
    ));
}

#[test]
fn whole_valued_float_stays_a_float() {
    let v: JsonV<String> = JsonV::Float64(format!("{}", 64.0_f64));
    let val = to_value(&v).unwrap();
    assert_eq!(serde_json::to_string(&val).unwrap(), "64.0");
    let back = from_value(&val).unwrap();
    assert!(matches!(back, JsonV::Float64(ref t) if t == "64.0"));
}

#[test]
fn non_finite_float_text_fails_to_encode() {
    let v: JsonV<String> = JsonV::Float64(format!("{}", f64::NAN));
    assert_eq!(to_value(&v).unwrap_err(), EncodeError::InvalidFloat);
    let w: JsonV<String> = JsonV::Float64(format!("{}", f64::INFINITY));
    assert_eq!(to_value(&w).unwrap_err(), EncodeError::InvalidFloat);
}

#[test]
fn null_fails_to_decode() {
    let parsed: serde_json::Value = serde_json::from_str("null").unwrap();
    assert_eq!(from_value(&parsed).unwrap_err(), DecodeError::UnsupportedShape);
    let nested: serde_json::Value = serde_json::from_str("[1, null]").unwrap();
    assert_eq!(from_value(&nested).unwrap_err(), DecodeError::UnsupportedShape);
}

#[test]
fn decode_probes_shapes_in_fixed_order() {
    let b: serde_json::Value = serde_json::from_str("true").unwrap();
    assert!(matches!(from_value(&b).unwrap(), JsonV::Boolean(true)));
    let i: serde_json::Value = serde_json::from_str("7").unwrap();
    assert!(matches!(from_value(&i).unwrap(), JsonV::Int64(7)));
    let f: serde_json::Value = serde_json::from_str("7.5").unwrap();
    assert!(matches!(from_value(&f).unwrap(), JsonV::Float64(ref t) if t == "7.5"));
    let s: serde_json::Value = serde_json::from_str("\"7\"").unwrap();
    assert!(matches!(from_value(&s).unwrap(), JsonV::String(ref t) if t == "7"));
    let scalar_not_object: serde_json::Value = serde_json::from_str("3").unwrap();
    assert!(map_from_value(&scalar_not_object).is_err());
}

#[test]
fn map_encodes_flat_with_no_wrapper_field() {
    let mut inner: JsonMap<String> = JsonMap::new();
    inner.insert("a".to_string(), JsonV::Int64(1));
    let mut m: JsonMap<String> = JsonMap::new();
    m.insert("nested".to_string(), JsonV::Object(inner));
    let val = map_to_value(&m).unwrap();
    let text = serde_json::to_string(&val).unwrap();
    assert_eq!(text, "{\"nested\":{\"a\":1}}");
}
