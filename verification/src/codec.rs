//! The structural (de)serialization contract, through `serde_json`.
//!
//! A map encodes as a plain JSON object — its entries are the object's
//! fields, with no wrapper around them — and a value encodes untagged:
//! only the shape of the emitted data tells the variants apart. Decoding
//! therefore probes the shape in a fixed order — boolean, 64-bit integer,
//! number, string, array, object — so the two integer widths collapse to
//! `Int64` and the two float widths to `Float64` on the way back.

use vstd::prelude::*;

use crate::key::MapKey;
use crate::map::JsonMap;
use crate::render::int_text;
use crate::value::JsonV;

verus! {

/// The shape of a `serde_json::Value`: what of it is visible on the wire.
///
/// A number that fits a signed 64-bit integer is `Int`; any other number
/// is `Float`, carrying the number's decimal text. An object is the
/// finite map of its fields.
pub enum JShape {
    Null,
    Bool(bool),
    Int(i64),
    Float(Seq<char>),
    Str(Seq<char>),
    Arr(Seq<JShape>),
    Obj(Map<Seq<char>, JShape>),
}

#[verifier::external_type_specification]
#[verifier::external_body]
pub struct ExValue(serde_json::Value);

/// The shape a `serde_json::Value` has. `Int` holds what `as_i64` yields;
/// a `Float` payload is the number's decimal text as `serde_json`
/// displays it; `Obj` holds the fields keyed by their text.
pub uninterp spec fn json_shape(v: serde_json::Value) -> JShape;

/// The shape of the number a piece of text denotes: `Int` or `Float` when
/// `serde_json` accepts the text as a JSON number, `Null` when it does
/// not.
pub uninterp spec fn num_shape_of_text(t: Seq<char>) -> JShape;

/// Whether a character sequence contains a given character.
pub open spec fn has_char(t: Seq<char>, c: char) -> bool {
    exists|i: int| 0 <= i < t.len() && t[i] == c
}

/// A float's decimal text, adjusted so that it reads as a JSON float
/// rather than a JSON integer: a text without a dot or an exponent gets
/// `.0` appended.
pub open spec fn json_num_norm(t: Seq<char>) -> Seq<char> {
    if has_char(t, '.') || has_char(t, 'e') || has_char(t, 'E') {
        t
    } else {
        t + seq!['.', '0']
    }
}

/// The error a failed encoding reports: a floating-point variant held
/// text that no JSON number can carry (for instance not-a-number or an
/// infinity).
#[derive(Debug, Clone, Copy, PartialEq, Eq, Structural)]
pub enum EncodeError {
    InvalidFloat,
}

/// The error a failed decoding reports: the data's shape matches none of
/// the variants (a JSON `null`, alone or nested).
#[derive(Debug, Clone, Copy, PartialEq, Eq, Structural)]
pub enum DecodeError {
    UnsupportedShape,
}

/// The shapes of the first `i` values of a sequence.
pub open spec fn shapes_of(s: Seq<JsonV<String>>, i: int) -> Seq<JShape>
    decreases s, 1int, i,
    via shapes_of_decreases
{
    if i <= 0 || i > s.len() {
        Seq::empty()
    } else {
        shapes_of(s, i - 1).push(shape_of(s[i - 1]))
    }
}

/// The object shape of the first `i` entries of an entry sequence; a
/// later entry with the same key overwrites an earlier one.
pub open spec fn obj_shape_of(s: Seq<(String, JsonV<String>)>, i: int) -> Map<Seq<char>, JShape>
    decreases s, 1int, i,
    via obj_shape_of_decreases
{
    if i <= 0 || i > s.len() {
        Map::empty()
    } else {
        obj_shape_of(s, i - 1).insert(s[i - 1].0@, shape_of(s[i - 1].1))
    }
}

/// The shape a value encodes to.
pub open spec fn shape_of(v: JsonV<String>) -> JShape
    decreases v, 0int, 0int,
    via shape_of_decreases
{
    match v {
        JsonV::Boolean(b) => JShape::Bool(b),
        JsonV::Int64(x) => JShape::Int(x),
        JsonV::Int32(x) => JShape::Int(x as i64),
        JsonV::Float64(t) => num_shape_of_text(json_num_norm(t@)),
        JsonV::Float32(t) => num_shape_of_text(json_num_norm(t@)),
        JsonV::String(s) => JShape::Str(s@),
        JsonV::Array(a) => JShape::Arr(shapes_of(a@, a@.len() as int)),
        JsonV::Object(m) => JShape::Obj(obj_shape_of(m.pairs(), m.pairs().len() as int)),
    }
}

/// Whether all of the first `i` values of a sequence can be encoded.
pub open spec fn all_encodable(s: Seq<JsonV<String>>, i: int) -> bool
    decreases s, 1int, i,
    via all_encodable_decreases
{
    if i <= 0 || i > s.len() {
        true
    } else {
        all_encodable(s, i - 1) && encodable(s[i - 1])
    }
}

/// Whether all values among the first `i` entries can be encoded.
pub open spec fn entries_encodable(s: Seq<(String, JsonV<String>)>, i: int) -> bool
    decreases s, 1int, i,
    via entries_encodable_decreases
{
    if i <= 0 || i > s.len() {
        true
    } else {
        entries_encodable(s, i - 1) && encodable(s[i - 1].1)
    }
}

/// Whether a value can be encoded: every floating-point leaf holds text
/// that reads as a JSON number.
pub open spec fn encodable(v: JsonV<String>) -> bool
    decreases v, 0int, 0int,
    via encodable_decreases
{
    match v {
        JsonV::Boolean(b) => true,
        JsonV::Int64(x) => true,
        JsonV::Int32(x) => true,
        JsonV::Float64(t) => !(num_shape_of_text(json_num_norm(t@)) matches JShape::Null),
        JsonV::Float32(t) => !(num_shape_of_text(json_num_norm(t@)) matches JShape::Null),
        JsonV::String(s) => true,
        JsonV::Array(a) => all_encodable(a@, a@.len() as int),
        JsonV::Object(m) => entries_encodable(m.pairs(), m.pairs().len() as int),
    }
}

/// Whether a shape decodes to a value: it holds no `null` anywhere.
pub open spec fn decodable(s: JShape) -> bool
    decreases s,
{
    match s {
        JShape::Null => false,
        JShape::Bool(b) => true,
        JShape::Int(x) => true,
        JShape::Float(t) => true,
        JShape::Str(t) => true,
        JShape::Arr(items) => forall|i: int|
            0 <= i < items.len() ==> decodable(#[trigger] items[i]),
        JShape::Obj(om) => om.dom().finite() && forall|k: Seq<char>|
            om.contains_key(k) ==> decodable(#[trigger] om[k]),
    }
}

/// How a decoded value relates to the shape it was decoded from: booleans
/// and integers match exactly, a float leaf carries the number's text, a
/// string carries the text, arrays match pointwise, and an object is a
/// well-formed map binding exactly the shape's keys to matching values.
pub open spec fn matches_shape(jv: JsonV<String>, s: JShape) -> bool
    decreases s,
{
    match s {
        JShape::Null => false,
        JShape::Bool(b) => jv == JsonV::<String>::Boolean(b),
        JShape::Int(x) => jv == JsonV::<String>::Int64(x),
        JShape::Float(t) => match jv {
            JsonV::Float64(ft) => ft@ == t,
            _ => false,
        },
        JShape::Str(t) => match jv {
            JsonV::String(st) => st@ == t,
            _ => false,
        },
        JShape::Arr(items) => match jv {
            JsonV::Array(a) => a@.len() == items.len() && forall|i: int|
                0 <= i < items.len() ==> matches_shape(a@[i], #[trigger] items[i]),
            _ => false,
        },
        JShape::Obj(om) => match jv {
            JsonV::Object(m) => obj_entries_match(m, om),
            _ => false,
        },
    }
}

/// How a decoded map relates to an object shape: it is well-formed,
/// binds exactly the shape's keys, and each binding matches the shape's.
pub open spec fn obj_entries_match(m: JsonMap<String>, om: Map<Seq<char>, JShape>) -> bool
    decreases om,
{
    &&& om.dom().finite()
    &&& m.wf()
    &&& forall|k: Seq<char>| #[trigger] om.contains_key(k) <==> m@.contains_key(k)
    &&& forall|k: Seq<char>|
        om.contains_key(k) ==> matches_shape(m@[k], #[trigger] om[k])
}

#[via_fn]
proof fn shapes_of_decreases(s: Seq<JsonV<String>>, i: int) {
    if 0 < i <= s.len() {
        assert(decreases_to!(s => s[i - 1]));
    }
}

#[via_fn]
proof fn obj_shape_of_decreases(s: Seq<(String, JsonV<String>)>, i: int) {
    if 0 < i <= s.len() {
        assert(decreases_to!(s => s[i - 1]));
        assert(decreases_to!(s[i - 1] => s[i - 1].1));
    }
}

#[via_fn]
proof fn shape_of_decreases(v: JsonV<String>) {
    match v {
        JsonV::Array(a) => {
            assert(decreases_to!(a => a@));
        },
        JsonV::Object(m) => {
            crate::map::lemma_map_decreases_to_pairs(m);
        },
        _ => {},
    }
}

#[via_fn]
proof fn all_encodable_decreases(s: Seq<JsonV<String>>, i: int) {
    if 0 < i <= s.len() {
        assert(decreases_to!(s => s[i - 1]));
    }
}

#[via_fn]
proof fn entries_encodable_decreases(s: Seq<(String, JsonV<String>)>, i: int) {
    if 0 < i <= s.len() {
        assert(decreases_to!(s => s[i - 1]));
        assert(decreases_to!(s[i - 1] => s[i - 1].1));
    }
}

#[via_fn]
proof fn encodable_decreases(v: JsonV<String>) {
    match v {
        JsonV::Array(a) => {
            assert(decreases_to!(a => a@));
        },
        JsonV::Object(m) => {
            crate::map::lemma_map_decreases_to_pairs(m);
        },
        _ => {},
    }
}

/// Relies on `serde_json::Value::Bool`: the value is the boolean.
#[verifier::external_body]
fn mk_bool(b: bool) -> (r: serde_json::Value)
    ensures
        json_shape(r) == JShape::Bool(b),
{
    serde_json::Value::Bool(b)
}

/// Relies on `serde_json::Value::from` for `i64`: the value is the given
/// integer, and `as_i64` yields it back.
#[verifier::external_body]
fn mk_i64(x: i64) -> (r: serde_json::Value)
    ensures
        json_shape(r) == JShape::Int(x),
{
    serde_json::Value::from(x)
}

/// Relies on `serde_json::Number`'s `FromStr`: the text parses exactly
/// when it is a JSON number, and the parsed number's shape depends on
/// the text alone.
#[verifier::external_body]
fn mk_number_text(t: &str) -> (r: Option<serde_json::Value>)
    ensures
        r matches Some(v) ==> json_shape(v) == num_shape_of_text(t@),
        r is Some <==> !(num_shape_of_text(t@) matches JShape::Null),
{
    match t.parse::<serde_json::Number>() {
        Ok(n) => Some(serde_json::Value::Number(n)),
        Err(_) => None,
    }
}

/// Relies on `serde_json::Value::String`: the value is a string with the
/// given text.
#[verifier::external_body]
fn mk_string(s: &str) -> (r: serde_json::Value)
    ensures
        json_shape(r) == JShape::Str(s@),
{
    serde_json::Value::String(s.to_owned())
}

/// Relies on `serde_json::Value::Array`: the value is an array of the
/// given items, in order.
#[verifier::external_body]
fn mk_array(items: Vec<serde_json::Value>) -> (r: serde_json::Value)
    ensures
        json_shape(r) == JShape::Arr(
            items@.map_values(|v: serde_json::Value| json_shape(v)),
        ),
{
    serde_json::Value::Array(items)
}

/// The fields that folding a pair sequence yields; a later pair with the
/// same key overwrites an earlier one, as `serde_json::Map` insertion
/// does.
pub open spec fn fields_of_pairs(s: Seq<(String, serde_json::Value)>, i: int) -> Map<
    Seq<char>,
    JShape,
>
    decreases i,
{
    if i <= 0 || i > s.len() {
        Map::empty()
    } else {
        fields_of_pairs(s, i - 1).insert(s[i - 1].0@, json_shape(s[i - 1].1))
    }
}

/// Relies on `serde_json::Value::Object` and `serde_json::Map`'s
/// `FromIterator`: the object holds exactly the given fields, a later
/// pair overwriting an earlier one with the same key.
#[verifier::external_body]
fn mk_object(pairs: Vec<(String, serde_json::Value)>) -> (r: serde_json::Value)
    ensures
        json_shape(r) == JShape::Obj(fields_of_pairs(pairs@, pairs@.len() as int)),
{
    serde_json::Value::Object(pairs.into_iter().collect())
}

/// Relies on `serde_json::Value::as_bool`: the boolean exactly when the
/// value is one.
#[verifier::external_body]
fn get_bool(v: &serde_json::Value) -> (r: Option<bool>)
    ensures
        match json_shape(*v) {
            JShape::Bool(b) => r == Some(b),
            _ => r is None,
        },
{
    v.as_bool()
}

/// Relies on `serde_json::Value::as_i64`: the integer exactly when the
/// value is a number in signed 64-bit range.
#[verifier::external_body]
fn get_i64(v: &serde_json::Value) -> (r: Option<i64>)
    ensures
        match json_shape(*v) {
            JShape::Int(x) => r == Some(x),
            _ => r is None,
        },
{
    v.as_i64()
}

/// Relies on `serde_json::Value::as_number` and the number's `Display`:
/// some text exactly when the value is a number; an integer displays as
/// its plain decimal text, any other number as the text its shape holds.
#[verifier::external_body]
fn get_number_text(v: &serde_json::Value) -> (r: Option<String>)
    ensures
        match json_shape(*v) {
            JShape::Float(t) => r matches Some(s) && s@ == t,
            JShape::Int(x) => r matches Some(s) && s@ == int_text(x as int),
            _ => r is None,
        },
{
    match v.as_number() {
        Some(n) => Some(format!("{}", n)),
        None => None,
    }
}

/// Relies on `serde_json::Value::as_str`: the text exactly when the value
/// is a string.
#[verifier::external_body]
fn get_str<'a>(v: &'a serde_json::Value) -> (r: Option<&'a str>)
    ensures
        match json_shape(*v) {
            JShape::Str(t) => r matches Some(s) && s@ == t,
            _ => r is None,
        },
{
    v.as_str()
}

/// Relies on `serde_json::Value::as_array`: the items exactly when the
/// value is an array, their shapes being the array shape's items.
#[verifier::external_body]
fn get_array<'a>(v: &'a serde_json::Value) -> (r: Option<&'a Vec<serde_json::Value>>)
    ensures
        match json_shape(*v) {
            JShape::Arr(items) => r matches Some(a) && a@.len() == items.len() && forall|i: int|
                0 <= i < items.len() ==> json_shape(a@[i]) == #[trigger] items[i],
            _ => r is None,
        },
{
    v.as_array()
}

/// Relies on `serde_json::Value::as_object` and `serde_json::Map::iter`:
/// the object's fields exactly when the value is an object — each once,
/// keys pairwise distinct, every field of the object among them.
#[verifier::external_body]
fn get_object_pairs<'a>(v: &'a serde_json::Value) -> (r: Option<
    Vec<(&'a String, &'a serde_json::Value)>,
>)
    ensures
        match json_shape(*v) {
            JShape::Obj(om) => r matches Some(ps) && {
                &&& om.dom().finite()
                &&& forall|i: int, j: int| 0 <= i < j < ps@.len() ==> ps@[i].0@ != ps@[j].0@
                &&& forall|i: int| #![trigger ps@[i]]
                    0 <= i < ps@.len() ==> om.contains_key(ps@[i].0@) && json_shape(*ps@[i].1)
                        == om.index(ps@[i].0@)
                &&& forall|k: Seq<char>|
                    om.contains_key(k) ==> exists|i: int|
                        0 <= i < ps@.len() && #[trigger] ps@[i].0@ == k
            },
            _ => r is None,
        },
{
    match v.as_object() {
        Some(m) => Some(m.iter().collect()),
        None => None,
    }
}

/// Appending one character to a text adds exactly that character to what
/// the text contains.
proof fn lemma_has_char_push(u: Seq<char>, c: char, d: char)
    ensures
        has_char(u.push(c), d) <==> (has_char(u, d) || c == d),
{
    if has_char(u, d) {
        let j = choose|j: int| 0 <= j < u.len() && u[j] == d;
        assert(u.push(c)[j] == d);
    }
    if c == d {
        assert(u.push(c)[u.len() as int] == d);
    }
    if has_char(u.push(c), d) && c != d {
        let j = choose|j: int| 0 <= j < u.push(c).len() && u.push(c)[j] == d;
        if j < u.len() {
            assert(u[j] == d);
        }
    }
}

/// Adjusts a float's decimal text so that it reads as a JSON float: a
/// text without a dot or an exponent gets `.0` appended.
fn norm_float_text(t: &str) -> (r: String)
    ensures
        r@ == json_num_norm(t@),
{
    let mut plain = true;
    let ghost tv = t@;
    let n = t.unicode_len();
    for i in 0..n
        invariant
            n == tv.len(),
            tv == t@,
            plain <==> !(has_char(tv.take(i as int), '.') || has_char(tv.take(i as int), 'e')
                || has_char(tv.take(i as int), 'E')),
        decreases n - i,
    {
        let c = t.get_char(i);
        if c == '.' || c == 'e' || c == 'E' {
            plain = false;
        }
        proof {
            assert(c == tv[i as int]);
            assert(tv.take(i as int + 1) =~= tv.take(i as int).push(tv[i as int]));
            lemma_has_char_push(tv.take(i as int), tv[i as int], '.');
            lemma_has_char_push(tv.take(i as int), tv[i as int], 'e');
            lemma_has_char_push(tv.take(i as int), tv[i as int], 'E');
        }
    }
    proof {
        assert(tv.take(n as int) =~= tv);
    }
    if plain {
        let mut s = t.to_owned();
        s.append(".0");
        proof {
            reveal_strlit(".0");
            assert(".0"@ =~= seq!['.', '0']);
            assert(s@ =~= tv + seq!['.', '0']);
        }
        s
    } else {
        t.to_owned()
    }
}

/// Encodes a value to its structural form. Fails, with the error saying
/// so, exactly when some floating-point leaf holds text that no JSON
/// number can carry.
#[verifier::loop_isolation(false)]
pub fn to_value(v: &JsonV<String>) -> (r: Result<serde_json::Value, EncodeError>)
    ensures
        r matches Ok(val) ==> encodable(*v) && json_shape(val) == shape_of(*v),
        r matches Err(e) ==> !encodable(*v) && e == EncodeError::InvalidFloat,
    decreases *v, 0int, 0int,
{
    match v {
        JsonV::Boolean(b) => Ok(mk_bool(*b)),
        JsonV::Int64(x) => Ok(mk_i64(*x)),
        JsonV::Int32(x) => Ok(mk_i64(*x as i64)),
        JsonV::Float64(t) => {
            let norm = norm_float_text(t.as_str());
            proof {
                assert(norm@ == json_num_norm(t@));
                assert(shape_of(*v) == num_shape_of_text(json_num_norm(t@)));
                assert(encodable(*v) == !(num_shape_of_text(json_num_norm(t@))
                    matches JShape::Null));
            }
            match mk_number_text(norm.as_str()) {
                Some(val) => Ok(val),
                None => Err(EncodeError::InvalidFloat),
            }
        },
        JsonV::Float32(t) => {
            let norm = norm_float_text(t.as_str());
            proof {
                assert(norm@ == json_num_norm(t@));
                assert(shape_of(*v) == num_shape_of_text(json_num_norm(t@)));
                assert(encodable(*v) == !(num_shape_of_text(json_num_norm(t@))
                    matches JShape::Null));
            }
            match mk_number_text(norm.as_str()) {
                Some(val) => Ok(val),
                None => Err(EncodeError::InvalidFloat),
            }
        },
        JsonV::String(s) => Ok(mk_string(s.as_str())),
        JsonV::Array(a) => {
            proof {
                assert(encodable(*v) == all_encodable(a@, a@.len() as int));
                assert(shape_of(*v) == JShape::Arr(shapes_of(a@, a@.len() as int)));
            }
            let mut items: Vec<serde_json::Value> = Vec::new();
            let n = a.len();
            for i in 0..n
                invariant
                    n == a@.len(),
                    items@.len() == i,
                    all_encodable(a@, i as int),
                    forall|j: int|
                        0 <= j < i ==> json_shape(#[trigger] items@[j]) == shape_of(a@[j]),
                    decreases_to!(*v => a@),
                decreases n - i,
            {
                proof {
                    assert(decreases_to!(a@ => a@[i as int]));
                }
                match to_value(&a[i]) {
                    Ok(item) => items.push(item),
                    Err(e) => {
                        proof {
                            if encodable(*v) {
                                lemma_all_encodable_index(a@, a@.len() as int, i as int);
                            }
                        }
                        return Err(e);
                    },
                }
            }
            let out = mk_array(items);
            proof {
                let ghost shapes = items@.map_values(|x: serde_json::Value| json_shape(x));
                assert(shapes =~= shapes_of(a@, a@.len() as int)) by {
                    lemma_shapes_of_pointwise(a@, items@);
                }
                assert(json_shape(out) == shape_of(*v));
                assert(encodable(*v));
            }
            Ok(out)
        },
        JsonV::Object(m) => {
            proof {
                crate::map::lemma_map_decreases_to_pairs(*m);
                assert(encodable(*v) == entries_encodable(m.pairs(), m.pairs().len() as int));
                assert(shape_of(*v) == JShape::Obj(
                    obj_shape_of(m.pairs(), m.pairs().len() as int),
                ));
            }
            let mut fields: Vec<(String, serde_json::Value)> = Vec::new();
            let n = m.pairs_len();
            for i in 0..n
                invariant
                    n == m.pairs().len(),
                    fields@.len() == i,
                    entries_encodable(m.pairs(), i as int),
                    forall|j: int| #![trigger fields@[j]]
                        0 <= j < i ==> fields@[j].0@ == m.pairs()[j].0@ && json_shape(
                            fields@[j].1,
                        ) == shape_of(m.pairs()[j].1),
                    decreases_to!(*v => m.pairs()),
                decreases n - i,
            {
                let (k, val) = m.pair_at(i);
                proof {
                    assert(decreases_to!(m.pairs() => m.pairs()[i as int]));
                    assert(decreases_to!(m.pairs()[i as int] => m.pairs()[i as int].1));
                }
                match to_value(val) {
                    Ok(item) => fields.push((k.clone(), item)),
                    Err(e) => {
                        proof {
                            if entries_encodable(m.pairs(), m.pairs().len() as int) {
                                lemma_entries_encodable_index(
                                    m.pairs(),
                                    m.pairs().len() as int,
                                    i as int,
                                );
                            }
                        }
                        return Err(e);
                    },
                }
            }
            let out = mk_object(fields);
            proof {
                lemma_fields_agree(fields@, m.pairs(), n as int);
                assert(json_shape(out) == shape_of(*v));
                assert(encodable(*v));
            }
            Ok(out)
        },
    }
}

/// Every element among an encodable prefix is itself encodable.
proof fn lemma_all_encodable_index(s: Seq<JsonV<String>>, k: int, i: int)
    requires
        0 <= i < k <= s.len(),
        all_encodable(s, k),
    ensures
        encodable(s[i]),
    decreases k,
{
    if i < k - 1 {
        lemma_all_encodable_index(s, k - 1, i);
    }
}

/// Every entry value among an encodable prefix is itself encodable.
proof fn lemma_entries_encodable_index(s: Seq<(String, JsonV<String>)>, k: int, i: int)
    requires
        0 <= i < k <= s.len(),
        entries_encodable(s, k),
    ensures
        encodable(s[i].1),
    decreases k,
{
    if i < k - 1 {
        lemma_entries_encodable_index(s, k - 1, i);
    }
}

/// Pointwise equal shapes make the item-shape sequences equal.
proof fn lemma_shapes_of_pointwise(s: Seq<JsonV<String>>, items: Seq<serde_json::Value>)
    requires
        items.len() == s.len(),
        forall|j: int| 0 <= j < s.len() ==> json_shape(#[trigger] items[j]) == shape_of(s[j]),
    ensures
        items.map_values(|x: serde_json::Value| json_shape(x)) =~= shapes_of(
            s,
            s.len() as int,
        ),
{
    lemma_shapes_of_prefix(s, items, s.len() as int);
    assert(items.map_values(|x: serde_json::Value| json_shape(x)) =~= shapes_of(
        s,
        s.len() as int,
    ));
}

proof fn lemma_shapes_of_prefix(s: Seq<JsonV<String>>, items: Seq<serde_json::Value>, i: int)
    requires
        items.len() == s.len(),
        0 <= i <= s.len(),
        forall|j: int| 0 <= j < s.len() ==> json_shape(#[trigger] items[j]) == shape_of(s[j]),
    ensures
        shapes_of(s, i) =~= items.map_values(|x: serde_json::Value| json_shape(x)).take(i),
    decreases i,
{
    if i > 0 {
        lemma_shapes_of_prefix(s, items, i - 1);
        assert(items.map_values(|x: serde_json::Value| json_shape(x)).take(i)
            =~= items.map_values(|x: serde_json::Value| json_shape(x)).take(i - 1).push(
            json_shape(items[i - 1]),
        ));
    }
}

/// Folding equal-keyed, equal-shaped pair sequences yields equal field
/// maps.
proof fn lemma_fields_agree(
    ps: Seq<(String, serde_json::Value)>,
    es: Seq<(String, JsonV<String>)>,
    i: int,
)
    requires
        ps.len() == es.len(),
        0 <= i <= es.len(),
        forall|j: int| #![trigger ps[j]]
            0 <= j < es.len() ==> ps[j].0@ == es[j].0@ && json_shape(ps[j].1) == shape_of(
                es[j].1,
            ),
    ensures
        fields_of_pairs(ps, i) == obj_shape_of(es, i),
    decreases i,
{
    if i > 0 {
        lemma_fields_agree(ps, es, i - 1);
        assert(fields_of_pairs(ps, i) =~= obj_shape_of(es, i));
    }
}

/// Decodes a structural value, inferring the variant from its shape in
/// the fixed trial order. Succeeds exactly when the shape holds no
/// `null`; the result then matches the shape.
#[verifier::loop_isolation(false)]
pub fn from_value(v: &serde_json::Value) -> (r: Result<JsonV<String>, DecodeError>)
    ensures
        r is Ok <==> decodable(json_shape(*v)),
        r matches Ok(jv) ==> matches_shape(jv, json_shape(*v)),
        r matches Err(e) ==> e == DecodeError::UnsupportedShape,
    decreases json_shape(*v),
{
    let ghost s = json_shape(*v);
    if let Some(b) = get_bool(v) {
        proof {
            assert(s matches JShape::Bool(b2) && b2 == b);
            assert(matches_shape(JsonV::<String>::Boolean(b), s));
        }
        return Ok(JsonV::Boolean(b));
    }
    if let Some(x) = get_i64(v) {
        proof {
            assert(s matches JShape::Int(x2) && x2 == x);
            assert(matches_shape(JsonV::<String>::Int64(x), s));
        }
        return Ok(JsonV::Int64(x));
    }
    if let Some(t) = get_number_text(v) {
        proof {
            assert(s matches JShape::Float(ft) && t@ == ft);
        }
        return Ok(JsonV::Float64(t));
    }
    if let Some(st) = get_str(v) {
        let owned = st.to_owned();
        proof {
            assert(s matches JShape::Str(t2) && owned@ == t2);
            assert(matches_shape(JsonV::String(owned), s));
        }
        return Ok(JsonV::String(owned));
    }
    if let Some(a) = get_array(v) {
        let ghost items = s->Arr_0;
        let mut out: Vec<JsonV<String>> = Vec::new();
        let n = a.len();
        for i in 0..n
            invariant
                n == a@.len(),
                n == items.len(),
                s == JShape::Arr(items),
                s == json_shape(*v),
                out@.len() == i,
                forall|j: int| 0 <= j < n ==> json_shape(a@[j]) == #[trigger] items[j],
                forall|j: int| 0 <= j < i ==> matches_shape(#[trigger] out@[j], items[j]),
                forall|j: int| 0 <= j < i ==> decodable(#[trigger] items[j]),
            decreases n - i,
        {
            proof {
                assert(decreases_to!(s => s->Arr_0));
                assert(decreases_to!(items => items[i as int]));
            }
            match from_value(&a[i]) {
                Ok(jv) => out.push(jv),
                Err(e) => {
                    proof {
                        assert(!decodable(items[i as int]));
                    }
                    return Err(e);
                },
            }
        }
        let result = JsonV::Array(out);
        proof {
            assert(decodable(s));
            assert(matches_shape(result, s));
        }
        return Ok(result);
    }
    if let Some(ps) = get_object_pairs(v) {
        let ghost om = s->Obj_0;
        let mut out: JsonMap<String> = JsonMap::new();
        let n = ps.len();
        for i in 0..n
            invariant
                n == ps@.len(),
                s == JShape::Obj(om),
                s == json_shape(*v),
                om.dom().finite(),
                forall|a2: int, b2: int| 0 <= a2 < b2 < n ==> ps@[a2].0@ != ps@[b2].0@,
                forall|j: int| #![trigger ps@[j]]
                    0 <= j < n ==> om.contains_key(ps@[j].0@) && json_shape(*ps@[j].1)
                        == om.index(ps@[j].0@),
                out.wf(),
                forall|k: Seq<char>|
                    out@.contains_key(k) ==> exists|j: int|
                        0 <= j < i && #[trigger] ps@[j].0@ == k,
                forall|j: int| #![trigger ps@[j]]
                    0 <= j < i ==> out@.contains_key(ps@[j].0@) && matches_shape(
                        out@.index(ps@[j].0@),
                        om.index(ps@[j].0@),
                    ),
                forall|j: int| #![trigger ps@[j]] 0 <= j < i ==> decodable(om.index(ps@[j].0@)),
            decreases n - i,
        {
            let (k, pv) = (ps[i].0, ps[i].1);
            proof {
                assert(om.contains_key(ps@[i as int].0@));
                assert(decreases_to!(s => s->Obj_0));
                broadcast use vstd::map::axiom_map_index_decreases_finite;
                assert(decreases_to!(om => om[ps@[i as int].0@]));
            }
            match from_value(pv) {
                Ok(jv) => {
                    out.insert(k.clone(), jv);
                },
                Err(e) => {
                    proof {
                        assert(!decodable(om[ps@[i as int].0@]));
                    }
                    return Err(e);
                },
            }
        }
        proof {
            assert forall|k: Seq<char>| om.contains_key(k) implies out@.contains_key(k) by {
                let j = choose|j: int| 0 <= j < ps@.len() && #[trigger] ps@[j].0@ == k;
                assert(out@.contains_key(ps@[j].0@));
            }
            assert forall|k: Seq<char>|
                om.contains_key(k) implies matches_shape(out@[k], #[trigger] om[k]) by {
                let j = choose|j: int| 0 <= j < ps@.len() && #[trigger] ps@[j].0@ == k;
                assert(matches_shape(out@[ps@[j].0@], om[ps@[j].0@]));
            }
            assert forall|k: Seq<char>| om.contains_key(k) implies decodable(#[trigger] om[k]) by {
                let j = choose|j: int| 0 <= j < ps@.len() && #[trigger] ps@[j].0@ == k;
                assert(decodable(om.index(ps@[j].0@)));
            }
        }
        let result = JsonV::Object(out);
        proof {
            assert(decodable(s));
            assert(result->Object_0 == out);
            assert(om.dom().finite());
            assert(out.wf());
            assert(forall|k: Seq<char>| #[trigger] om.contains_key(k) <==> out@.contains_key(k));
            assert(forall|k: Seq<char>|
                om.contains_key(k) ==> matches_shape(out@[k], #[trigger] om[k]));
            assert(obj_entries_match(out, om));
            assert(matches_shape(result, s));
        }
        return Ok(result);
    }
    proof {
        assert(s matches JShape::Null);
    }
    Err(DecodeError::UnsupportedShape)
}

/// Encodes a whole map as a plain object: its entries are the object's
/// fields, with no wrapper around them.
#[verifier::loop_isolation(false)]
pub fn map_to_value(m: &JsonMap<String>) -> (r: Result<serde_json::Value, EncodeError>)
    requires
        m.wf(),
    ensures
        r matches Ok(val) ==> json_shape(val) == JShape::Obj(
            obj_shape_of(m.pairs(), m.pairs().len() as int),
        ) && entries_encodable(m.pairs(), m.pairs().len() as int),
        r matches Err(e) ==> !entries_encodable(m.pairs(), m.pairs().len() as int) && e
            == EncodeError::InvalidFloat,
{
    let mut fields: Vec<(String, serde_json::Value)> = Vec::new();
    let n = m.pairs_len();
    for i in 0..n
        invariant
            n == m.pairs().len(),
            fields@.len() == i,
            entries_encodable(m.pairs(), i as int),
            forall|j: int| #![trigger fields@[j]]
                0 <= j < i ==> fields@[j].0@ == m.pairs()[j].0@ && json_shape(fields@[j].1)
                    == shape_of(m.pairs()[j].1),
        decreases n - i,
    {
        let (k, val) = m.pair_at(i);
        match to_value(val) {
            Ok(item) => fields.push((k.clone(), item)),
            Err(e) => {
                proof {
                    if entries_encodable(m.pairs(), m.pairs().len() as int) {
                        lemma_entries_encodable_index(
                            m.pairs(),
                            m.pairs().len() as int,
                            i as int,
                        );
                    }
                }
                return Err(e);
            },
        }
    }
    let out = mk_object(fields);
    proof {
        lemma_fields_agree(fields@, m.pairs(), n as int);
    }
    Ok(out)
}

/// Decodes a structural value into a map: the value must be an object
/// whose fields all decode.
pub fn map_from_value(v: &serde_json::Value) -> (r: Result<JsonMap<String>, DecodeError>)
    ensures
        r matches Ok(m) ==> (m.wf() && matches_shape(JsonV::Object(m), json_shape(*v))),
        r is Ok <==> decodable(json_shape(*v)) && json_shape(*v) matches JShape::Obj(om),
{
    let decoded = from_value(v);
    match decoded {
        Ok(jv) => match jv {
            JsonV::Object(m) => {
                proof {
                    assert(matches_shape(JsonV::Object(m), json_shape(*v)));
                    assert(json_shape(*v) matches JShape::Obj(om2) && obj_entries_match(m, om2));
                }
                Ok(m)
            },
            _ => {
                proof {
                    assert(!(json_shape(*v) matches JShape::Obj(om2)));
                }
                Err(DecodeError::UnsupportedShape)
            },
        },
        Err(e) => Err(e),
    }
}

/// Whether all of the first `i` values of a sequence are deeply
/// well-formed.
pub open spec fn all_value_wf(s: Seq<JsonV<String>>, i: int) -> bool
    decreases s, 1int, i,
    via all_value_wf_decreases
{
    if i <= 0 || i > s.len() {
        true
    } else {
        all_value_wf(s, i - 1) && value_wf(s[i - 1])
    }
}

/// Whether all values among the first `i` entries are deeply well-formed.
pub open spec fn entries_value_wf(s: Seq<(String, JsonV<String>)>, i: int) -> bool
    decreases s, 1int, i,
    via entries_value_wf_decreases
{
    if i <= 0 || i > s.len() {
        true
    } else {
        entries_value_wf(s, i - 1) && value_wf(s[i - 1].1)
    }
}

/// Deep well-formedness of a value: every nested map has pairwise
/// distinct keys.
pub open spec fn value_wf(v: JsonV<String>) -> bool
    decreases v, 0int, 0int,
    via value_wf_decreases
{
    match v {
        JsonV::Array(a) => all_value_wf(a@, a@.len() as int),
        JsonV::Object(m) => m.wf() && entries_value_wf(m.pairs(), m.pairs().len() as int),
        _ => true,
    }
}

#[via_fn]
proof fn all_value_wf_decreases(s: Seq<JsonV<String>>, i: int) {
    if 0 < i <= s.len() {
        assert(decreases_to!(s => s[i - 1]));
    }
}

#[via_fn]
proof fn entries_value_wf_decreases(s: Seq<(String, JsonV<String>)>, i: int) {
    if 0 < i <= s.len() {
        assert(decreases_to!(s => s[i - 1]));
        assert(decreases_to!(s[i - 1] => s[i - 1].1));
    }
}

#[via_fn]
proof fn value_wf_decreases(v: JsonV<String>) {
    match v {
        JsonV::Array(a) => {
            assert(decreases_to!(a => a@));
        },
        JsonV::Object(m) => {
            crate::map::lemma_map_decreases_to_pairs(m);
        },
        _ => {},
    }
}

/// How a value that went through encoding and decoding relates to the
/// value it started from: booleans, 64-bit integers and strings come
/// back as they were; a 32-bit integer comes back as `Int64`; a float
/// leaf comes back as the number its text denotes — `Float64` carrying
/// that number's text, or `Int64` if the text denoted an integer after
/// all; arrays come back in order; an object comes back as a map binding
/// the same keys, each to the round trip of its last-written value.
pub open spec fn round_equiv(v: JsonV<String>, jv: JsonV<String>) -> bool
    decreases v, 0int, 0int,
    via round_equiv_decreases
{
    match v {
        JsonV::Boolean(b) => jv == JsonV::<String>::Boolean(b),
        JsonV::Int64(x) => jv == JsonV::<String>::Int64(x),
        JsonV::Int32(x) => jv == JsonV::<String>::Int64(x as i64),
        JsonV::Float64(t) => match num_shape_of_text(json_num_norm(t@)) {
            JShape::Float(ft) => jv matches JsonV::Float64(f2) && f2@ == ft,
            JShape::Int(x) => jv == JsonV::<String>::Int64(x),
            _ => matches_shape(jv, num_shape_of_text(json_num_norm(t@))),
        },
        JsonV::Float32(t) => match num_shape_of_text(json_num_norm(t@)) {
            JShape::Float(ft) => jv matches JsonV::Float64(f2) && f2@ == ft,
            JShape::Int(x) => jv == JsonV::<String>::Int64(x),
            _ => matches_shape(jv, num_shape_of_text(json_num_norm(t@))),
        },
        JsonV::String(st) => jv matches JsonV::String(s2) && s2@ == st@,
        JsonV::Array(a) => jv matches JsonV::Array(a2) && a2@.len() == a@.len() && forall|i: int|
            0 <= i < a@.len() ==> round_equiv(#[trigger] a@[i], a2@[i]),
        JsonV::Object(m) => jv matches JsonV::Object(m2) && m2.wf() && (forall|k: Seq<char>|
            m@.contains_key(k) <==> m2@.contains_key(k)) && forall|i: int| #![trigger m.pairs()[i]]
            0 <= i < m.pairs().len() ==> m2@.contains_key(m.pairs()[i].0@) && round_equiv(
                m.pairs()[i].1,
                m2@.index(m.pairs()[i].0@),
            ),
    }
}

#[via_fn]
proof fn round_equiv_decreases(v: JsonV<String>, jv: JsonV<String>) {
    match v {
        JsonV::Array(a) => {
            assert(decreases_to!(a => a@));
            assert forall|i: int| 0 <= i < a@.len() implies decreases_to!(
                a@ => #[trigger] a@[i]
            ) by {}
        },
        JsonV::Object(m) => {
            crate::map::lemma_map_decreases_to_pairs(m);
            assert forall|i: int| 0 <= i < m.pairs().len() implies decreases_to!(
                m.pairs() => #[trigger] m.pairs()[i].1
            ) by {
                assert(decreases_to!(m.pairs() => m.pairs()[i]));
            }
        },
        _ => {},
    }
}

/// The length of a shape prefix is the prefix's length.
proof fn lemma_shapes_of_len(s: Seq<JsonV<String>>, i: int)
    requires
        0 <= i <= s.len(),
    ensures
        shapes_of(s, i).len() == i,
    decreases i,
{
    if i > 0 {
        lemma_shapes_of_len(s, i - 1);
    }
}

/// A shape prefix holds the shapes of the elements, in order.
proof fn lemma_shapes_of_index(s: Seq<JsonV<String>>, i: int, j: int)
    requires
        0 <= j < i <= s.len(),
    ensures
        shapes_of(s, i).len() == i,
        shapes_of(s, i)[j] == shape_of(s[j]),
    decreases i,
{
    lemma_shapes_of_len(s, i);
    if j < i - 1 {
        lemma_shapes_of_index(s, i - 1, j);
    }
}

/// The object shape of an entry prefix binds exactly the prefix's keys.
proof fn lemma_obj_shape_contains(s: Seq<(String, JsonV<String>)>, i: int, k: Seq<char>)
    requires
        0 <= i <= s.len(),
    ensures
        obj_shape_of(s, i).contains_key(k) <==> exists|j: int| 0 <= j < i && s[j].0@ == k,
    decreases i,
{
    if i > 0 {
        lemma_obj_shape_contains(s, i - 1, k);
        if obj_shape_of(s, i).contains_key(k) {
            if s[i - 1].0@ != k {
                let j = choose|j: int| 0 <= j < i - 1 && s[j].0@ == k;
                assert(s[j].0@ == k);
            }
        }
    }
}

/// With pairwise distinct keys, the object shape binds each entry's key
/// to that entry's value shape.
proof fn lemma_obj_shape_index(s: Seq<(String, JsonV<String>)>, i: int, j: int)
    requires
        distinct_keys_str(s),
        0 <= j < i <= s.len(),
    ensures
        obj_shape_of(s, i).contains_key(s[j].0@),
        obj_shape_of(s, i).index(s[j].0@) == shape_of(s[j].1),
    decreases i,
{
    if j < i - 1 {
        lemma_obj_shape_index(s, i - 1, j);
        assert(s[j].0@ != s[i - 1].0@);
    }
}

/// Pairwise distinct keys of a string-keyed entry sequence.
pub open spec fn distinct_keys_str(s: Seq<(String, JsonV<String>)>) -> bool {
    forall|i: int, j: int| 0 <= i < j < s.len() ==> s[i].0@ != s[j].0@
}

/// What matching an object shape says, spelled out.
proof fn lemma_matches_shape_obj(jv: JsonV<String>, om: Map<Seq<char>, JShape>)
    requires
        matches_shape(jv, JShape::Obj(om)),
    ensures
        jv is Object,
        obj_entries_match(jv->Object_0, om),
{
}

/// The round-trip law: whatever decoding makes of the shape a deeply
/// well-formed value encodes to is round-trip equivalent to that value.
/// Together with the contracts of `to_value` and `from_value` this says
/// that encoding a map or value and decoding the result reproduces an
/// equivalent structure, the two narrower numeric widths coming back as
/// their 64-bit counterparts.
pub proof fn lemma_round_trip(v: JsonV<String>, jv: JsonV<String>)
    requires
        value_wf(v),
        matches_shape(jv, shape_of(v)),
    ensures
        round_equiv(v, jv),
    decreases v, 0int, 0int,
{
    match v {
        JsonV::Array(a) => {
            assert(decreases_to!(a => a@));
            let items = shapes_of(a@, a@.len() as int);
            lemma_shapes_of_len(a@, a@.len() as int);
            let a2 = jv->Array_0;
            assert forall|i: int| 0 <= i < a@.len() implies round_equiv(
                #[trigger] a@[i],
                a2@[i],
            ) by {
                lemma_shapes_of_index(a@, a@.len() as int, i);
                assert(matches_shape(a2@[i], items[i]));
                assert(all_value_wf(a@, a@.len() as int));
                lemma_all_value_wf_index(a@, a@.len() as int, i);
                assert(decreases_to!(a@ => a@[i]));
                lemma_round_trip(a@[i], a2@[i]);
            }
        },
        JsonV::Object(m) => {
            crate::map::lemma_map_decreases_to_pairs(m);
            m.lemma_view_is_folded_pairs();
            let om = obj_shape_of(m.pairs(), m.pairs().len() as int);
            let m2 = jv->Object_0;
            assert(shape_of(v) == JShape::Obj(om));
            lemma_matches_shape_obj(jv, om);
            assert(jv matches JsonV::Object(mx) && mx == m2);
            assert(obj_entries_match(m2, om));
            assert(m2.wf());
            assert forall|k: Seq<char>|
                #[trigger] m@.contains_key(k) <==> m2@.contains_key(k) by {
                crate::map::lemma_pairs_to_map_contains(m.pairs(), k);
                lemma_obj_shape_contains(m.pairs(), m.pairs().len() as int, k);
            }
            assert forall|i: int| #![trigger m.pairs()[i]]
                0 <= i < m.pairs().len() implies m2@.contains_key(m.pairs()[i].0@)
                && round_equiv(m.pairs()[i].1, m2@.index(m.pairs()[i].0@)) by {
                lemma_obj_shape_index(m.pairs(), m.pairs().len() as int, i);
                lemma_obj_shape_contains(m.pairs(), m.pairs().len() as int, m.pairs()[i].0@);
                assert(matches_shape(m2@.index(m.pairs()[i].0@), om.index(m.pairs()[i].0@)));
                lemma_entries_value_wf_index(m.pairs(), m.pairs().len() as int, i);
                assert(decreases_to!(m.pairs() => m.pairs()[i]));
                assert(decreases_to!(m.pairs()[i] => m.pairs()[i].1));
                lemma_round_trip(m.pairs()[i].1, m2@.index(m.pairs()[i].0@));
            }
        },
        _ => {},
    }
}

/// Every element of a deeply well-formed prefix is deeply well-formed.
proof fn lemma_all_value_wf_index(s: Seq<JsonV<String>>, k: int, i: int)
    requires
        0 <= i < k <= s.len(),
        all_value_wf(s, k),
    ensures
        value_wf(s[i]),
    decreases k,
{
    if i < k - 1 {
        lemma_all_value_wf_index(s, k - 1, i);
    }
}

/// Every entry value of a deeply well-formed prefix is deeply
/// well-formed.
proof fn lemma_entries_value_wf_index(s: Seq<(String, JsonV<String>)>, k: int, i: int)
    requires
        0 <= i < k <= s.len(),
        entries_value_wf(s, k),
    ensures
        value_wf(s[i].1),
    decreases k,
{
    if i < k - 1 {
        lemma_entries_value_wf_index(s, k - 1, i);
    }
}

} // verus!
