//! A heterogeneous, JSON-like associative container.
//!
//! [`JsonMap`] maps keys of a caller-chosen type to [`JsonV`] values: a
//! closed tagged union over booleans, two integer widths, two
//! floating-point widths (each held as its decimal text), strings, ordered
//! sequences and nested maps.

mod codec;
mod key;
mod laws;
mod map;
mod render;
mod value;

pub use codec::from_value;
pub use codec::lemma_round_trip;
pub use codec::map_from_value;
pub use codec::map_to_value;
pub use codec::to_value;
pub use codec::DecodeError;
pub use codec::EncodeError;
pub use key::MapKey;
pub use laws::lemma_insert_overwrites;
pub use laws::lemma_insert_then_get;
pub use laws::lemma_remove_behaviour;
pub use map::JsonMap;
pub use render::render;
pub use render::render_map;
pub use value::JsonV;
