//! The tagged value type a map stores: a closed union over booleans, two
//! integer widths, two floating-point widths, strings, ordered sequences
//! and nested maps.
//!
//! A floating-point variant holds the number's decimal text (the form std
//! would display it in), since the value's own logic only ever reads that
//! text: rendering emits it, and the structural encoding parses it.

use vstd::prelude::*;

use crate::key::MapKey;
use crate::map::JsonMap;

verus! {

/// One JSON-like datum. Exactly one variant is active; `Array` and
/// `Object` nest arbitrarily deep, and ownership is strictly tree-shaped.
#[derive(Debug)]
pub enum JsonV<K: MapKey> {
    Boolean(bool),
    Int64(i64),
    Int32(i32),
    /// A 64-bit float, held as its decimal text.
    Float64(String),
    /// A 32-bit float, held as its decimal text.
    Float32(String),
    String(String),
    Array(Vec<JsonV<K>>),
    Object(JsonMap<K>),
}

impl<K: MapKey> From<bool> for JsonV<K> {
    /// Wraps a boolean as the `Boolean` variant.
    fn from(value: bool) -> (r: Self) {
        JsonV::Boolean(value)
    }
}

impl<K: MapKey> vstd::std_specs::convert::FromSpecImpl<bool> for JsonV<K> {
    open spec fn obeys_from_spec() -> bool {
        true
    }

    open spec fn from_spec(value: bool) -> Self {
        JsonV::Boolean(value)
    }
}

impl<K: MapKey> From<i32> for JsonV<K> {
    /// Wraps a 32-bit integer as the `Int32` variant.
    fn from(value: i32) -> (r: Self) {
        JsonV::Int32(value)
    }
}

impl<K: MapKey> vstd::std_specs::convert::FromSpecImpl<i32> for JsonV<K> {
    open spec fn obeys_from_spec() -> bool {
        true
    }

    open spec fn from_spec(value: i32) -> Self {
        JsonV::Int32(value)
    }
}

impl<K: MapKey> From<i64> for JsonV<K> {
    /// Wraps a 64-bit integer as the `Int64` variant.
    fn from(value: i64) -> (r: Self) {
        JsonV::Int64(value)
    }
}

impl<K: MapKey> vstd::std_specs::convert::FromSpecImpl<i64> for JsonV<K> {
    open spec fn obeys_from_spec() -> bool {
        true
    }

    open spec fn from_spec(value: i64) -> Self {
        JsonV::Int64(value)
    }
}

impl<K: MapKey> From<String> for JsonV<K> {
    /// Wraps an owned string as the `String` variant.
    fn from(value: String) -> (r: Self) {
        JsonV::String(value)
    }
}

impl<K: MapKey> vstd::std_specs::convert::FromSpecImpl<String> for JsonV<K> {
    open spec fn obeys_from_spec() -> bool {
        true
    }

    open spec fn from_spec(value: String) -> Self {
        JsonV::String(value)
    }
}

impl<K: MapKey> From<&'static str> for JsonV<K> {
    /// Wraps a borrowed string slice as the `String` variant, copying its
    /// characters.
    fn from(value: &'static str) -> (r: Self)
        ensures
            r matches JsonV::String(s) && s@ == value@,
    {
        JsonV::String(value.to_owned())
    }
}

impl<K: MapKey> vstd::std_specs::convert::FromSpecImpl<&'static str> for JsonV<K> {
    open spec fn obeys_from_spec() -> bool {
        false
    }

    open spec fn from_spec(value: &'static str) -> Self {
        JsonV::Boolean(false)
    }
}

impl<K: MapKey> From<Vec<JsonV<K>>> for JsonV<K> {
    /// Wraps an owned sequence of values as the `Array` variant.
    fn from(value: Vec<JsonV<K>>) -> (r: Self) {
        JsonV::Array(value)
    }
}

impl<K: MapKey> vstd::std_specs::convert::FromSpecImpl<Vec<JsonV<K>>> for JsonV<K> {
    open spec fn obeys_from_spec() -> bool {
        true
    }

    open spec fn from_spec(value: Vec<JsonV<K>>) -> Self {
        JsonV::Array(value)
    }
}

impl<K: MapKey> From<JsonMap<K>> for JsonV<K> {
    /// Wraps a map as the `Object` variant.
    fn from(value: JsonMap<K>) -> (r: Self) {
        JsonV::Object(value)
    }
}

impl<K: MapKey> vstd::std_specs::convert::FromSpecImpl<JsonMap<K>> for JsonV<K> {
    open spec fn obeys_from_spec() -> bool {
        true
    }

    open spec fn from_spec(value: JsonMap<K>) -> Self {
        JsonV::Object(value)
    }
}

} // verus!
