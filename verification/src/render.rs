//! Debug-oriented textual rendering of values.
//!
//! Booleans render as `true`/`false`, numbers as plain decimal text,
//! strings as their raw contents, arrays as `[..]` with `", "` between
//! elements, and objects as `{..}` where every entry — the last one
//! included — is followed by `" , "`.

use vstd::prelude::*;

use crate::key::MapKey;
use crate::map::lemma_map_decreases_to_pairs;
use crate::map::JsonMap;
use crate::value::JsonV;

verus! {

/// The decimal digit character for one value below ten.
pub open spec fn digit_char(d: nat) -> char {
    if d == 0 {
        '0'
    } else if d == 1 {
        '1'
    } else if d == 2 {
        '2'
    } else if d == 3 {
        '3'
    } else if d == 4 {
        '4'
    } else if d == 5 {
        '5'
    } else if d == 6 {
        '6'
    } else if d == 7 {
        '7'
    } else if d == 8 {
        '8'
    } else {
        '9'
    }
}

/// The decimal digits of a natural number, most significant first.
pub open spec fn dec_digits(n: nat) -> Seq<char>
    decreases n,
{
    if n < 10 {
        seq![digit_char(n)]
    } else {
        dec_digits(n / 10).push(digit_char(n % 10))
    }
}

/// The decimal text of an integer: a minus sign for a negative value,
/// then its digits.
pub open spec fn int_text(v: int) -> Seq<char> {
    if v >= 0 {
        dec_digits(v as nat)
    } else {
        seq!['-'] + dec_digits((-v) as nat)
    }
}

/// The text a boolean renders to.
pub open spec fn bool_text(b: bool) -> Seq<char> {
    if b {
        seq!['t', 'r', 'u', 'e']
    } else {
        seq!['f', 'a', 'l', 's', 'e']
    }
}

/// The text a value renders to.
pub open spec fn render_spec<K: MapKey>(v: JsonV<K>) -> Seq<char>
    decreases v, 0int, 0int,
    via render_spec_decreases::<K>
{
    match v {
        JsonV::Boolean(b) => bool_text(b),
        JsonV::Int64(x) => int_text(x as int),
        JsonV::Int32(x) => int_text(x as int),
        JsonV::Float64(t) => t@,
        JsonV::Float32(t) => t@,
        JsonV::String(s) => s@,
        JsonV::Array(a) => seq!['['] + render_elems(a@, a@.len() as int) + seq![']'],
        JsonV::Object(m) => seq!['{'] + render_entries(m.pairs(), m.pairs().len() as int)
            + seq!['}'],
    }
}

/// The text of the first `i` elements of an array, joined by `", "`.
pub open spec fn render_elems<K: MapKey>(s: Seq<JsonV<K>>, i: int) -> Seq<char>
    decreases s, 1int, i,
    via render_elems_decreases::<K>
{
    if i <= 0 || i > s.len() {
        Seq::empty()
    } else if i == 1 {
        render_spec(s[0])
    } else {
        render_elems(s, i - 1) + seq![',', ' '] + render_spec(s[i - 1])
    }
}

/// The text of the first `i` entries of an object: each one as
/// `key: value` followed by `" , "`, the last entry included.
pub open spec fn render_entries<K: MapKey>(s: Seq<(K, JsonV<K>)>, i: int) -> Seq<char>
    decreases s, 1int, i,
    via render_entries_decreases::<K>
{
    if i <= 0 || i > s.len() {
        Seq::empty()
    } else {
        render_entries(s, i - 1) + s[i - 1].0.text_spec() + seq![':', ' '] + render_spec(
            s[i - 1].1,
        ) + seq![' ', ',', ' ']
    }
}

#[via_fn]
proof fn render_elems_decreases<K: MapKey>(s: Seq<JsonV<K>>, i: int) {
    if 0 < i <= s.len() {
        assert(decreases_to!(s => s[i - 1]));
        if i == 1 {
            assert(decreases_to!(s => s[0]));
        }
    }
}

#[via_fn]
proof fn render_entries_decreases<K: MapKey>(s: Seq<(K, JsonV<K>)>, i: int) {
    if 0 < i <= s.len() {
        assert(decreases_to!(s => s[i - 1]));
        assert(decreases_to!(s[i - 1] => s[i - 1].1));
    }
}

#[via_fn]
proof fn render_spec_decreases<K: MapKey>(v: JsonV<K>) {
    match v {
        JsonV::Array(a) => {
            assert(decreases_to!(a => a@));
        },
        JsonV::Object(m) => {
            lemma_map_decreases_to_pairs(m);
        },
        _ => {},
    }
}

/// The decimal text of an unsigned 64-bit number.
pub fn fmt_u64(n: u64) -> (r: String)
    ensures
        r@ == dec_digits(n as nat),
    decreases n,
{
    if n < 10 {
        let d = digit_str(n);
        let r = d.to_owned();
        proof {
            assert(r@ =~= seq![digit_char(n as nat)]);
        }
        r
    } else {
        let mut s = fmt_u64(n / 10);
        s.append(digit_str(n % 10));
        proof {
            assert(s@ =~= dec_digits((n / 10) as nat).push(digit_char((n % 10) as nat)));
            assert((n / 10) as nat == n as nat / 10);
            assert((n % 10) as nat == n as nat % 10);
        }
        s
    }
}

/// The character of one decimal digit.
fn digit_str(d: u64) -> (r: &'static str)
    requires
        d < 10,
    ensures
        r@ == seq![digit_char(d as nat)],
{
    let r: &'static str = if d == 0 {
        "0"
    } else if d == 1 {
        "1"
    } else if d == 2 {
        "2"
    } else if d == 3 {
        "3"
    } else if d == 4 {
        "4"
    } else if d == 5 {
        "5"
    } else if d == 6 {
        "6"
    } else if d == 7 {
        "7"
    } else if d == 8 {
        "8"
    } else {
        "9"
    };
    proof {
        reveal_strlit("0");
        reveal_strlit("1");
        reveal_strlit("2");
        reveal_strlit("3");
        reveal_strlit("4");
        reveal_strlit("5");
        reveal_strlit("6");
        reveal_strlit("7");
        reveal_strlit("8");
        reveal_strlit("9");
        assert(r@ =~= seq![digit_char(d as nat)]);
    }
    r
}

/// The decimal text of a signed 64-bit number.
pub fn fmt_i64(v: i64) -> (r: String)
    ensures
        r@ == int_text(v as int),
{
    if v >= 0 {
        fmt_u64(v as u64)
    } else {
        let m: u64 = (-(v as i128)) as u64;
        proof {
            assert(m as nat == (-(v as int)) as nat);
        }
        let mut s = sign_str().to_owned();
        s.append(fmt_u64(m).as_str());
        proof {
            assert(s@ =~= seq!['-'] + dec_digits((-(v as int)) as nat));
        }
        s
    }
}

/// The minus sign.
fn sign_str() -> (r: &'static str)
    ensures
        r@ == seq!['-'],
{
    proof {
        reveal_strlit("-");
        assert("-"@ =~= seq!['-']);
    }
    "-"
}

/// The decimal text of a signed 32-bit number.
pub fn fmt_i32(v: i32) -> (r: String)
    ensures
        r@ == int_text(v as int),
{
    fmt_i64(v as i64)
}

/// The text a boolean renders to.
pub fn fmt_bool(b: bool) -> (r: String)
    ensures
        r@ == bool_text(b),
{
    if b {
        let r = "true".to_owned();
        proof {
            reveal_strlit("true");
            assert(r@ =~= bool_text(true));
        }
        r
    } else {
        let r = "false".to_owned();
        proof {
            reveal_strlit("false");
            assert(r@ =~= bool_text(false));
        }
        r
    }
}

/// Renders a value to its textual form.
pub fn render<K: MapKey>(v: &JsonV<K>) -> (r: String)
    ensures
        r@ == render_spec(*v),
    decreases *v, 0int, 0int,
{
    match v {
        JsonV::Boolean(b) => fmt_bool(*b),
        JsonV::Int64(x) => fmt_i64(*x),
        JsonV::Int32(x) => fmt_i32(*x),
        JsonV::Float64(t) => {
            let r = t.as_str().to_owned();
            r
        },
        JsonV::Float32(t) => {
            let r = t.as_str().to_owned();
            r
        },
        JsonV::String(s) => {
            let r = s.as_str().to_owned();
            r
        },
        JsonV::Array(a) => {
            let mut acc = "[".to_owned();
            proof {
                reveal_strlit("[");
                assert(acc@ =~= seq!['['] + render_elems(a@, 0));
            }
            let n = a.len();
            for i in 0..n
                invariant
                    n == a@.len(),
                    acc@ == seq!['['] + render_elems(a@, i as int),
                    decreases_to!(*v => a@),
                decreases n - i,
            {
                if i > 0 {
                    acc.append(", ");
                    proof {
                        reveal_strlit(", ");
                    }
                }
                proof {
                    assert(decreases_to!(a@ => a@[i as int]));
                }
                let piece = render(&a[i]);
                acc.append(piece.as_str());
                proof {
                    if i == 0 {
                        assert(acc@ =~= seq!['['] + render_elems(a@, 1));
                    } else {
                        assert(", "@ =~= seq![',', ' ']);
                        assert(acc@ =~= seq!['['] + (render_elems(a@, i as int) + seq![',', ' ']
                            + render_spec(a@[i as int])));
                        assert(acc@ =~= seq!['['] + render_elems(a@, i as int + 1));
                    }
                }
            }
            acc.append("]");
            proof {
                reveal_strlit("]");
                assert("]"@ =~= seq![']']);
                assert(acc@ =~= seq!['['] + render_elems(a@, a@.len() as int) + seq![']']);
            }
            acc
        },
        JsonV::Object(m) => {
            let mut acc = "{".to_owned();
            proof {
                reveal_strlit("{");
                assert(acc@ =~= seq!['{'] + render_entries(m.pairs(), 0));
                assert(decreases_to!(*v => *m));
                lemma_map_decreases_to_pairs(*m);
            }
            let n = m.pairs_len();
            for i in 0..n
                invariant
                    n == m.pairs().len(),
                    acc@ == seq!['{'] + render_entries(m.pairs(), i as int),
                    decreases_to!(*v => m.pairs()),
                decreases n - i,
            {
                let (k, val) = m.pair_at(i);
                let key_piece = k.key_text();
                acc.append(key_piece.as_str());
                acc.append(": ");
                proof {
                    reveal_strlit(": ");
                    assert(decreases_to!(m.pairs() => m.pairs()[i as int]));
                    assert(decreases_to!(m.pairs()[i as int] => m.pairs()[i as int].1));
                }
                let piece = render(val);
                acc.append(piece.as_str());
                acc.append(" , ");
                proof {
                    reveal_strlit(" , ");
                    assert(": "@ =~= seq![':', ' ']);
                    assert(" , "@ =~= seq![' ', ',', ' ']);
                    assert(acc@ =~= seq!['{'] + (render_entries(m.pairs(), i as int) + m.pairs()[
                        i as int
                    ].0.text_spec() + seq![':', ' '] + render_spec(m.pairs()[i as int].1)
                        + seq![' ', ',', ' ']));
                    assert(acc@ =~= seq!['{'] + render_entries(m.pairs(), i as int + 1));
                }
            }
            acc.append("}");
            proof {
                reveal_strlit("}");
                assert("}"@ =~= seq!['}']);
                assert(acc@ =~= seq!['{'] + render_entries(m.pairs(), m.pairs().len() as int)
                    + seq!['}']);
            }
            acc
        },
    }
}

/// Renders a whole map as an object.
pub fn render_map<K: MapKey>(m: &JsonMap<K>) -> (r: String)
    ensures
        r@ == seq!['{'] + render_entries(m.pairs(), m.pairs().len() as int) + seq!['}'],
{
    let mut acc = "{".to_owned();
    proof {
        reveal_strlit("{");
        assert(acc@ =~= seq!['{'] + render_entries(m.pairs(), 0));
    }
    let n = m.pairs_len();
    for i in 0..n
        invariant
            n == m.pairs().len(),
            acc@ == seq!['{'] + render_entries(m.pairs(), i as int),
        decreases n - i,
    {
        let (k, val) = m.pair_at(i);
        let key_piece = k.key_text();
        acc.append(key_piece.as_str());
        acc.append(": ");
        let piece = render(val);
        acc.append(piece.as_str());
        acc.append(" , ");
        proof {
            reveal_strlit(": ");
            reveal_strlit(" , ");
            assert(": "@ =~= seq![':', ' ']);
            assert(" , "@ =~= seq![' ', ',', ' ']);
            assert(acc@ =~= seq!['{'] + (render_entries(m.pairs(), i as int) + m.pairs()[
                i as int
            ].0.text_spec() + seq![':', ' '] + render_spec(m.pairs()[i as int].1)
                + seq![' ', ',', ' ']));
            assert(acc@ =~= seq!['{'] + render_entries(m.pairs(), i as int + 1));
        }
    }
    acc.append("}");
    proof {
        reveal_strlit("}");
        assert("}"@ =~= seq!['}']);
        assert(acc@ =~= seq!['{'] + render_entries(m.pairs(), m.pairs().len() as int)
            + seq!['}']);
    }
    acc
}

} // verus!
