//! The capability bound on a map's key type: equality, duplication and a
//! textual form, each with a contract stated over the key's view.

use vstd::prelude::*;

verus! {

/// What a key type must support: equality that agrees with the key's view,
/// duplication that preserves the view, and a textual form for rendering.
///
/// The map's contracts speak of keys through their views, so a conforming
/// implementation must make the executable operations agree with the view,
/// as each method's contract demands.
pub trait MapKey: View + Sized {
    /// The text the key renders to.
    spec fn text_spec(&self) -> Seq<char>;

    /// Equality test; agrees with view equality.
    fn key_eq(&self, other: &Self) -> (r: bool)
        ensures
            r == (self@ == other@),
    ;

    /// Duplicate the key; the copy has the same view.
    fn key_dup(&self) -> (r: Self)
        ensures
            r@ == self@,
    ;

    /// The key's textual form, used when rendering an object.
    fn key_text(&self) -> (r: String)
        ensures
            r@ == self.text_spec(),
    ;
}

impl MapKey for String {
    open spec fn text_spec(&self) -> Seq<char> {
        self@
    }

    fn key_eq(&self, other: &Self) -> (r: bool) {
        *self == *other
    }

    fn key_dup(&self) -> (r: Self) {
        self.clone()
    }

    fn key_text(&self) -> (r: String) {
        self.clone()
    }
}

impl MapKey for i64 {
    open spec fn text_spec(&self) -> Seq<char> {
        crate::render::int_text(*self as int)
    }

    fn key_eq(&self, other: &Self) -> (r: bool) {
        *self == *other
    }

    fn key_dup(&self) -> (r: Self) {
        *self
    }

    fn key_text(&self) -> (r: String) {
        crate::render::fmt_i64(*self)
    }
}

impl MapKey for i32 {
    open spec fn text_spec(&self) -> Seq<char> {
        crate::render::int_text(*self as int)
    }

    fn key_eq(&self, other: &Self) -> (r: bool) {
        *self == *other
    }

    fn key_dup(&self) -> (r: Self) {
        *self
    }

    fn key_text(&self) -> (r: String) {
        crate::render::fmt_i32(*self)
    }
}

impl MapKey for u64 {
    open spec fn text_spec(&self) -> Seq<char> {
        crate::render::dec_digits(*self as nat)
    }

    fn key_eq(&self, other: &Self) -> (r: bool) {
        *self == *other
    }

    fn key_dup(&self) -> (r: Self) {
        *self
    }

    fn key_text(&self) -> (r: String) {
        crate::render::fmt_u64(*self)
    }
}

} // verus!
