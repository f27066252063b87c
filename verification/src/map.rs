//! The associative container: keys of a caller-chosen type, values of the
//! tagged union type.
//!
//! Entries are held in a vector of pairs whose keys are pairwise distinct;
//! the map's view is the mathematical `Map` that folding the pairs yields.

use vstd::prelude::*;

use crate::key::MapKey;
use crate::value::JsonV;

verus! {

/// The map a sequence of key/value pairs folds to: a later pair with the
/// same key overwrites an earlier one.
pub open spec fn pairs_to_map<K: MapKey>(s: Seq<(K, JsonV<K>)>) -> Map<K::V, JsonV<K>>
    decreases s.len(),
{
    if s.len() == 0 {
        Map::empty()
    } else {
        pairs_to_map(s.drop_last()).insert(s.last().0@, s.last().1)
    }
}

/// No two pairs of the sequence carry keys with the same view.
pub open spec fn distinct_keys<K: MapKey>(s: Seq<(K, JsonV<K>)>) -> bool {
    forall|i: int, j: int| 0 <= i < j < s.len() ==> s[i].0@ != s[j].0@
}

/// A key→value associative container over [`JsonV`] values.
///
/// Its view is a `Map` from key views to values; keys are unique within
/// one well-formed instance, and no entry order is part of the contract.
#[derive(Debug)]
pub struct JsonMap<K: MapKey> {
    entries: Vec<(K, JsonV<K>)>,
}

pub proof fn lemma_pairs_to_map_contains<K: MapKey>(s: Seq<(K, JsonV<K>)>, k: K::V)
    ensures
        pairs_to_map(s).contains_key(k) <==> exists|i: int|
            0 <= i < s.len() && s[i].0@ == k,
    decreases s.len(),
{
    if s.len() > 0 {
        let t = s.drop_last();
        lemma_pairs_to_map_contains(t, k);
        if pairs_to_map(s).contains_key(k) {
            if s.last().0@ == k {
                assert(s[s.len() - 1].0@ == k);
            } else {
                let i = choose|i: int| 0 <= i < t.len() && t[i].0@ == k;
                assert(s[i].0@ == k);
            }
        }
        if exists|i: int| 0 <= i < s.len() && s[i].0@ == k {
            let i = choose|i: int| 0 <= i < s.len() && s[i].0@ == k;
            if i < s.len() - 1 {
                assert(t[i].0@ == k);
            }
        }
    }
}

pub proof fn lemma_pairs_to_map_index<K: MapKey>(s: Seq<(K, JsonV<K>)>, i: int)
    requires
        distinct_keys(s),
        0 <= i < s.len(),
    ensures
        pairs_to_map(s).contains_key(s[i].0@),
        pairs_to_map(s)[s[i].0@] == s[i].1,
    decreases s.len(),
{
    let t = s.drop_last();
    if i == s.len() - 1 {
    } else {
        assert(t[i] == s[i]);
        lemma_pairs_to_map_index(t, i);
        assert(s[i].0@ != s.last().0@);
    }
}

pub proof fn lemma_pairs_to_map_len<K: MapKey>(s: Seq<(K, JsonV<K>)>)
    requires
        distinct_keys(s),
    ensures
        pairs_to_map(s).dom().finite(),
        pairs_to_map(s).len() == s.len(),
    decreases s.len(),
{
    if s.len() > 0 {
        let t = s.drop_last();
        lemma_pairs_to_map_len(t);
        lemma_pairs_to_map_contains(t, s.last().0@);
        assert(forall|i: int| 0 <= i < t.len() ==> s[i].0@ != s.last().0@);
        assert(!pairs_to_map(t).contains_key(s.last().0@));
    }
}

/// Appending a pair folds to inserting it into the folded map.
pub proof fn lemma_pairs_to_map_push<K: MapKey>(s: Seq<(K, JsonV<K>)>, p: (K, JsonV<K>))
    ensures
        pairs_to_map(s.push(p)) == pairs_to_map(s).insert(p.0@, p.1),
{
    assert(s.push(p).drop_last() =~= s);
    assert(s.push(p).last() == p);
}

/// Overwriting the value of one entry, keeping its key, turns the folded
/// map's binding for that key into the new value.
proof fn lemma_pairs_to_map_update<K: MapKey>(s: Seq<(K, JsonV<K>)>, i: int, p: (K, JsonV<K>))
    requires
        distinct_keys(s),
        0 <= i < s.len(),
        p.0 == s[i].0,
    ensures
        distinct_keys(s.update(i, p)),
        pairs_to_map(s.update(i, p)) == pairs_to_map(s).insert(p.0@, p.1),
    decreases s.len(),
{
    let u = s.update(i, p);
    assert(forall|j: int| 0 <= j < s.len() && j != i ==> u[j] == s[j]);
    if i == s.len() - 1 {
        assert(u.drop_last() =~= s.drop_last());
        assert(pairs_to_map(u) == pairs_to_map(s.drop_last()).insert(p.0@, p.1));
        assert(pairs_to_map(s).insert(p.0@, p.1) =~= pairs_to_map(s.drop_last()).insert(
            p.0@,
            p.1,
        ));
    } else {
        assert(u.drop_last() =~= s.drop_last().update(i, p));
        lemma_pairs_to_map_update(s.drop_last(), i, p);
        assert(s.last().0@ != p.0@);
        assert(pairs_to_map(u) == pairs_to_map(s.drop_last()).insert(p.0@, p.1).insert(
            s.last().0@,
            s.last().1,
        ));
        assert(pairs_to_map(s.drop_last()).insert(p.0@, p.1).insert(s.last().0@, s.last().1)
            =~= pairs_to_map(s.drop_last()).insert(s.last().0@, s.last().1).insert(p.0@, p.1));
    }
}

/// Removing one entry folds to removing its key from the folded map.
proof fn lemma_pairs_to_map_remove<K: MapKey>(s: Seq<(K, JsonV<K>)>, i: int)
    requires
        distinct_keys(s),
        0 <= i < s.len(),
    ensures
        distinct_keys(s.remove(i)),
        pairs_to_map(s.remove(i)) == pairs_to_map(s).remove(s[i].0@),
    decreases s.len(),
{
    let u = s.remove(i);
    let t = s.drop_last();
    assert(forall|j: int| 0 <= j < i ==> u[j] == s[j]);
    assert(forall|j: int| i <= j < u.len() ==> u[j] == s[j + 1]);
    if i == s.len() - 1 {
        assert(u =~= t);
        lemma_pairs_to_map_contains(t, s[i].0@);
        assert(forall|j: int| 0 <= j < t.len() ==> t[j].0@ != s[i].0@);
        assert(!pairs_to_map(t).contains_key(s[i].0@));
        assert(pairs_to_map(s).remove(s[i].0@) =~= pairs_to_map(t));
    } else {
        assert(u.drop_last() =~= t.remove(i));
        assert(u.last() == s.last());
        lemma_pairs_to_map_remove(t, i);
        assert(t[i] == s[i]);
        assert(s.last().0@ != s[i].0@);
        assert(pairs_to_map(u) == pairs_to_map(t).remove(s[i].0@).insert(
            s.last().0@,
            s.last().1,
        ));
        assert(pairs_to_map(t).remove(s[i].0@).insert(s.last().0@, s.last().1)
            =~= pairs_to_map(t).insert(s.last().0@, s.last().1).remove(s[i].0@));
    }
}

impl<K: MapKey> View for JsonMap<K> {
    type V = Map<K::V, JsonV<K>>;

    closed spec fn view(&self) -> Map<K::V, JsonV<K>> {
        pairs_to_map(self.entries@)
    }
}

impl<K: MapKey> JsonMap<K> {
    /// The entries in their present order. No order is promised between
    /// the keys; this sequence only fixes what iteration and rendering
    /// see at a given moment.
    pub closed spec fn pairs(&self) -> Seq<(K, JsonV<K>)> {
        self.entries@
    }

    /// Well-formedness: the keys of the held entries are pairwise
    /// distinct. Constructors establish it and every method keeps it.
    pub open spec fn wf(&self) -> bool {
        distinct_keys(self.pairs())
    }

    /// The view is the folded entry sequence.
    pub proof fn lemma_view_is_folded_pairs(&self)
        ensures
            self@ == pairs_to_map(self.pairs()),
    {
    }

    /// Creates an empty map.
    pub fn new() -> (r: Self)
        ensures
            r.wf(),
            r@ == Map::<K::V, JsonV<K>>::empty(),
            r.pairs() == Seq::<(K, JsonV<K>)>::empty(),
    {
        JsonMap { entries: Vec::new() }
    }

    /// The index of the entry holding `key`, if any.
    fn find(&self, key: &K) -> (r: Option<usize>)
        ensures
            match r {
                Some(i) => i < self.pairs().len() && self.pairs()[i as int].0@ == key@,
                None => forall|i: int| 0 <= i < self.pairs().len() ==> self.pairs()[i].0@ != key@,
            },
    {
        let n = self.entries.len();
        for i in 0..n
            invariant
                n == self.entries.len(),
                forall|j: int| 0 <= j < i ==> self.entries@[j].0@ != key@,
        {
            if self.entries[i].0.key_eq(key) {
                return Some(i);
            }
        }
        None
    }

    /// How many entries the map holds.
    pub fn len(&self) -> (r: usize)
        requires
            self.wf(),
        ensures
            r == self@.len(),
            r == self.pairs().len(),
    {
        proof {
            lemma_pairs_to_map_len(self.entries@);
        }
        self.entries.len()
    }

    /// Whether the map holds an entry for `key`.
    pub fn contains_key(&self, key: &K) -> (r: bool)
        requires
            self.wf(),
        ensures
            r == self@.contains_key(key@),
    {
        proof {
            lemma_pairs_to_map_contains(self.entries@, key@);
            assert(self.pairs() == self.entries@);
        }
        match self.find(key) {
            Some(i) => {
                assert(self.entries@[i as int].0@ == key@);
                assert(self@.contains_key(key@));
                true
            },
            None => {
                assert(forall|j: int| 0 <= j < self.entries@.len() ==> self.entries@[j].0@
                    != key@);
                assert(!self@.contains_key(key@));
                false
            },
        }
    }

    /// The value stored under `key`; absence is a normal empty result.
    pub fn get(&self, key: &K) -> (r: Option<&JsonV<K>>)
        requires
            self.wf(),
        ensures
            match r {
                Some(v) => self@.contains_key(key@) && *v == self@[key@],
                None => !self@.contains_key(key@),
            },
    {
        proof {
            lemma_pairs_to_map_contains(self.entries@, key@);
            assert(self.pairs() == self.entries@);
        }
        match self.find(key) {
            Some(i) => {
                proof {
                    lemma_pairs_to_map_index(self.entries@, i as int);
                    assert(self@.contains_key(key@));
                    assert(self@[key@] == self.entries@[i as int].1);
                }
                Some(&self.entries[i].1)
            },
            None => {
                proof {
                    assert(forall|j: int| 0 <= j < self.entries@.len() ==> self.entries@[j].0@
                        != key@);
                    assert(!self@.contains_key(key@));
                }
                None
            },
        }
    }

    /// Inserts `value` under `key`; an existing entry for the key is
    /// overwritten in place, and the old value is discarded. A fresh key
    /// appends its entry after the present ones.
    pub fn insert(&mut self, key: K, value: JsonV<K>)
        requires
            old(self).wf(),
        ensures
            final(self).wf(),
            final(self)@ == old(self)@.insert(key@, value),
            old(self)@.contains_key(key@) ==> {
                &&& final(self).pairs().len() == old(self).pairs().len()
                &&& forall|j: int|
                    0 <= j < old(self).pairs().len() && old(self).pairs()[j].0@ != key@
                        ==> final(self).pairs()[j] == old(self).pairs()[j]
                &&& forall|j: int|
                    0 <= j < old(self).pairs().len() && old(self).pairs()[j].0@ == key@
                        ==> final(self).pairs()[j] == (old(self).pairs()[j].0, value)
            },
            !old(self)@.contains_key(key@) ==> final(self).pairs() == old(self).pairs().push(
                (key, value),
            ),
    {
        proof {
            lemma_pairs_to_map_contains(self.entries@, key@);
            assert(self.pairs() == self.entries@);
        }
        let ghost olds = self.entries@;
        match self.find(&key) {
            Some(i) => {
                proof {
                    lemma_pairs_to_map_index(olds, i as int);
                }
                self.entries[i].1 = value;
                proof {
                    let p = self.entries@[i as int];
                    assert(p.0 == olds[i as int].0);
                    assert(p.1 == value);
                    assert(self.entries@ =~= olds.update(i as int, p));
                    lemma_pairs_to_map_update(olds, i as int, p);
                    assert(olds[i as int].0@ == key@);
                    assert(pairs_to_map(self.entries@) =~= pairs_to_map(olds).insert(
                        key@,
                        value,
                    ));
                    assert forall|j: int|
                        0 <= j < olds.len() && olds[j].0@ == key@ implies self.entries@[j] == (
                        olds[j].0,
                        value,
                    ) by {
                        if j != i as int {
                            assert(olds[j].0@ != olds[i as int].0@);
                        }
                    }
                }
            },
            None => {
                self.entries.push((key, value));
                proof {
                    assert(forall|j: int| 0 <= j < olds.len() ==> self.entries@[j] == olds[j]);
                    assert(self.entries@[olds.len() as int] == (key, value));
                    assert(forall|j: int| 0 <= j < olds.len() ==> olds[j].0@ != key@);
                    assert forall|a: int, b: int|
                        0 <= a < b < self.entries@.len() implies self.entries@[a].0@
                        != self.entries@[b].0@ by {
                        if b == olds.len() as int {
                            assert(self.entries@[a] == olds[a]);
                        } else {
                            assert(self.entries@[a] == olds[a] && self.entries@[b] == olds[b]);
                        }
                    }
                    lemma_pairs_to_map_push(olds, (key, value));
                }
            },
        }
    }

    /// A mutable reference to the value stored under `key`; mutation
    /// through it is visible in the map afterwards. The caller must know
    /// the key is present; `contains_key` tells.
    pub fn get_mut(&mut self, key: &K) -> (r: &mut JsonV<K>)
        requires
            old(self).wf(),
            old(self)@.contains_key(key@),
        ensures
            final(self).wf(),
            *r == old(self)@[key@],
            final(self)@ == old(self)@.insert(key@, *final(r)),
            final(self).pairs().len() == old(self).pairs().len(),
            forall|j: int| #![trigger old(self).pairs()[j]]
                0 <= j < old(self).pairs().len() ==> final(self).pairs()[j].0 == old(
                    self,
                ).pairs()[j].0,
            forall|j: int| #![trigger old(self).pairs()[j]]
                0 <= j < old(self).pairs().len() && old(self).pairs()[j].0@ != key@
                    ==> final(self).pairs()[j] == old(self).pairs()[j],
            forall|j: int| #![trigger old(self).pairs()[j]]
                0 <= j < old(self).pairs().len() && old(self).pairs()[j].0@ == key@
                    ==> final(self).pairs()[j].1 == *final(r),
    {
        proof {
            lemma_pairs_to_map_contains(self.entries@, key@);
            assert(self.pairs() == self.entries@);
        }
        let ghost olds = self.entries@;
        let i = match self.find(key) {
            Some(i) => i,
            None => {
                proof {
                    assert(forall|j: int| 0 <= j < olds.len() ==> olds[j].0@ != key@);
                }
                unreached()
            },
        };
        proof {
            lemma_pairs_to_map_index(olds, i as int);
            assert forall|v: JsonV<K>|
                {
                    &&& distinct_keys(#[trigger] olds.update(i as int, (olds[i as int].0, v)))
                    &&& pairs_to_map(olds.update(i as int, (olds[i as int].0, v)))
                        == pairs_to_map(olds).insert(key@, v)
                    &&& forall|j: int|
                        0 <= j < olds.len() && olds[j].0@ == key@ ==> olds.update(
                            i as int,
                            (olds[i as int].0, v),
                        )[j].1 == v
                } by {
                lemma_pairs_to_map_update(olds, i as int, (olds[i as int].0, v));
                assert forall|j: int|
                    0 <= j < olds.len() && olds[j].0@ == key@ implies olds.update(
                    i as int,
                    (olds[i as int].0, v),
                )[j].1 == v by {
                    if j != i as int {
                        assert(olds[j].0@ != olds[i as int].0@);
                    }
                }
            }
        }
        &mut self.entries[i].1
    }

    /// A mutable reference to the slot for `key`: the present value if the
    /// key is held, else `default`, newly inserted — get-or-insert access
    /// with a single lookup. Mutation through the reference is visible in
    /// the map afterwards.
    pub fn entry(&mut self, key: K, default: JsonV<K>) -> (r: &mut JsonV<K>)
        requires
            old(self).wf(),
        ensures
            final(self).wf(),
            old(self)@.contains_key(key@) ==> *r == old(self)@[key@],
            !old(self)@.contains_key(key@) ==> *r == default,
            final(self)@ == old(self)@.insert(key@, *final(r)),
    {
        proof {
            lemma_pairs_to_map_contains(self.entries@, key@);
            assert(self.pairs() == self.entries@);
        }
        let ghost olds = self.entries@;
        let ghost kv = key@;
        let i = match self.find(&key) {
            Some(i) => {
                proof {
                    lemma_pairs_to_map_index(olds, i as int);
                }
                i
            },
            None => {
                let n = self.entries.len();
                self.entries.push((key, default));
                proof {
                    assert(forall|j: int| 0 <= j < olds.len() ==> self.entries@[j] == olds[j]);
                    assert(forall|j: int| 0 <= j < olds.len() ==> olds[j].0@ != kv);
                    assert forall|a: int, b: int|
                        0 <= a < b < self.entries@.len() implies self.entries@[a].0@
                        != self.entries@[b].0@ by {
                        if b == olds.len() as int {
                            assert(self.entries@[a] == olds[a]);
                        } else {
                            assert(self.entries@[a] == olds[a] && self.entries@[b] == olds[b]);
                        }
                    }
                    lemma_pairs_to_map_push(olds, self.entries@[olds.len() as int]);
                }
                n
            },
        };
        proof {
            let cur = self.entries@;
            assert(distinct_keys(cur));
            assert((i as int) < cur.len());
            assert(cur[i as int].0@ == kv);
            assert forall|v: JsonV<K>|
                {
                    &&& distinct_keys(#[trigger] cur.update(i as int, (cur[i as int].0, v)))
                    &&& pairs_to_map(cur.update(i as int, (cur[i as int].0, v)))
                        == pairs_to_map(olds).insert(kv, v)
                } by {
                lemma_pairs_to_map_update(cur, i as int, (cur[i as int].0, v));
                assert(pairs_to_map(cur).insert(kv, v) =~= pairs_to_map(olds).insert(kv, v));
            }
        }
        &mut self.entries[i].1
    }

    /// Removes the entry for `key`, handing back its value; on an absent
    /// key nothing changes and the result is empty.
    pub fn remove(&mut self, key: &K) -> (r: Option<JsonV<K>>)
        requires
            old(self).wf(),
        ensures
            final(self).wf(),
            final(self)@ == old(self)@.remove(key@),
            match r {
                Some(v) => old(self)@.contains_key(key@) && v == old(self)@[key@]
                    && final(self)@.len() == old(self)@.len() - 1,
                None => !old(self)@.contains_key(key@) && final(self)@ == old(self)@
                    && final(self).pairs() == old(self).pairs(),
            },
    {
        proof {
            lemma_pairs_to_map_contains(self.entries@, key@);
            assert(self.pairs() == self.entries@);
        }
        let ghost olds = self.entries@;
        match self.find(key) {
            Some(i) => {
                proof {
                    lemma_pairs_to_map_index(olds, i as int);
                    lemma_pairs_to_map_len(olds);
                    lemma_pairs_to_map_remove(olds, i as int);
                    assert(olds[i as int].0@ == key@);
                    lemma_pairs_to_map_len(olds.remove(i as int));
                }
                let p = self.entries.remove(i);
                Some(p.1)
            },
            None => {
                proof {
                    assert(forall|j: int| 0 <= j < olds.len() ==> olds[j].0@ != key@);
                    assert(!pairs_to_map(olds).contains_key(key@));
                    assert(pairs_to_map(olds).remove(key@) =~= pairs_to_map(olds));
                }
                None
            },
        }
    }

    /// Removes every entry; the map is empty afterwards.
    pub fn clear(&mut self)
        ensures
            final(self).wf(),
            final(self)@ == Map::<K::V, JsonV<K>>::empty(),
            final(self).pairs() == Seq::<(K, JsonV<K>)>::empty(),
    {
        self.entries = Vec::new();
    }

    /// Duplicates of all keys, in entry order.
    pub fn keys(&self) -> (r: Vec<K>)
        requires
            self.wf(),
        ensures
            r@.len() == self.pairs().len(),
            r@.len() == self@.len(),
            forall|i: int| 0 <= i < r@.len() ==> r@[i]@ == self.pairs()[i].0@,
            forall|i: int| #![trigger r@[i]] 0 <= i < r@.len() ==> self@.contains_key(r@[i]@),
            forall|i: int, j: int| 0 <= i < j < r@.len() ==> r@[i]@ != r@[j]@,
    {
        proof {
            lemma_pairs_to_map_len(self.entries@);
            assert(self.pairs() == self.entries@);
        }
        let mut out: Vec<K> = Vec::new();
        let n = self.entries.len();
        for i in 0..n
            invariant
                n == self.entries@.len(),
                out@.len() == i,
                forall|j: int| 0 <= j < i ==> out@[j]@ == self.entries@[j].0@,
        {
            out.push(self.entries[i].0.key_dup());
        }
        proof {
            assert forall|i: int| #![trigger out@[i]]
                0 <= i < out@.len() implies self@.contains_key(out@[i]@) by {
                lemma_pairs_to_map_index(self.entries@, i);
            }
        }
        out
    }

    /// References to all values, in entry order.
    pub fn values(&self) -> (r: Vec<&JsonV<K>>)
        requires
            self.wf(),
        ensures
            r@.len() == self.pairs().len(),
            forall|i: int| 0 <= i < r@.len() ==> *r@[i] == self.pairs()[i].1,
            forall|i: int| #![trigger self.pairs()[i]]
                0 <= i < r@.len() ==> self@.contains_key(self.pairs()[i].0@)
                    && *r@[i] == self@.index(self.pairs()[i].0@),
    {
        proof {
            assert(self.pairs() == self.entries@);
        }
        let mut out: Vec<&JsonV<K>> = Vec::new();
        let n = self.entries.len();
        for i in 0..n
            invariant
                n == self.entries@.len(),
                out@.len() == i,
                forall|j: int| 0 <= j < i ==> *out@[j] == self.entries@[j].1,
        {
            out.push(&self.entries[i].1);
        }
        proof {
            assert forall|i: int| #![trigger self.pairs()[i]]
                0 <= i < out@.len() implies self@.contains_key(self.pairs()[i].0@) && *out@[i]
                == self@.index(self.pairs()[i].0@) by {
                lemma_pairs_to_map_index(self.entries@, i);
                assert(*out@[i] == self.entries@[i].1);
            }
        }
        out
    }

    /// Borrowed (key, value) pairs, in entry order: as many as the map has
    /// entries, every entry exactly once.
    pub fn iter(&self) -> (r: Vec<(&K, &JsonV<K>)>)
        requires
            self.wf(),
        ensures
            r@.len() == self.pairs().len(),
            r@.len() == self@.len(),
            forall|i: int|
                0 <= i < r@.len() ==> *r@[i].0 == self.pairs()[i].0 && *r@[i].1 == self.pairs()[i].1,
            forall|i: int| #![trigger r@[i]]
                0 <= i < r@.len() ==> self@.contains_key(r@[i].0@) && *r@[i].1 == self@.index(
                    r@[i].0@,
                ),
            forall|i: int, j: int| 0 <= i < j < r@.len() ==> r@[i].0@ != r@[j].0@,
    {
        proof {
            lemma_pairs_to_map_len(self.entries@);
            assert(self.pairs() == self.entries@);
        }
        let mut out: Vec<(&K, &JsonV<K>)> = Vec::new();
        let n = self.entries.len();
        for i in 0..n
            invariant
                n == self.entries@.len(),
                out@.len() == i,
                forall|j: int|
                    0 <= j < i ==> *out@[j].0 == self.entries@[j].0 && *out@[j].1
                        == self.entries@[j].1,
        {
            let pair = &self.entries[i];
            out.push((&pair.0, &pair.1));
        }
        proof {
            assert forall|i: int| #![trigger out@[i]]
                0 <= i < out@.len() implies self@.contains_key(out@[i].0@) && *out@[i].1
                == self@.index(out@[i].0@) by {
                lemma_pairs_to_map_index(self.entries@, i);
            }
        }
        out
    }

    /// Consumes the map, handing out ownership of every (key, value) pair
    /// exactly once: as many pairs as the map had entries, each present in
    /// the map's view, with no key repeated.
    pub fn into_pairs(self) -> (r: Vec<(K, JsonV<K>)>)
        requires
            self.wf(),
        ensures
            r@ == self.pairs(),
            r@.len() == self@.len(),
            forall|i: int| #![trigger r@[i]]
                0 <= i < r@.len() ==> self@.contains_key(r@[i].0@) && r@[i].1 == self@.index(
                    r@[i].0@,
                ),
            forall|i: int, j: int| 0 <= i < j < r@.len() ==> r@[i].0@ != r@[j].0@,
    {
        proof {
            lemma_pairs_to_map_len(self.entries@);
            assert(self.pairs() == self.entries@);
            assert forall|i: int| #![trigger self.entries@[i]]
                0 <= i < self.entries@.len() implies self@.contains_key(self.entries@[i].0@)
                && self.entries@[i].1 == self@.index(self.entries@[i].0@) by {
                lemma_pairs_to_map_index(self.entries@, i);
            }
        }
        let JsonMap { entries } = self;
        entries
    }

    /// How many entries the map holds, counted over the entry sequence;
    /// unlike `len` this asks nothing of the map.
    pub fn pairs_len(&self) -> (r: usize)
        ensures
            r == self.pairs().len(),
    {
        self.entries.len()
    }

    /// The entry at one position of the entry sequence.
    pub fn pair_at(&self, i: usize) -> (r: (&K, &JsonV<K>))
        requires
            i < self.pairs().len(),
        ensures
            *r.0 == self.pairs()[i as int].0,
            *r.1 == self.pairs()[i as int].1,
    {
        let pair = &self.entries[i];
        (&pair.0, &pair.1)
    }

    /// Builds a map from a sequence of pairs; a later pair with the same
    /// key overwrites an earlier one, exactly as repeated `insert` in the
    /// sequence's order would.
    pub fn from_pairs(src: Vec<(K, JsonV<K>)>) -> (r: Self)
        ensures
            r.wf(),
            r@ == pairs_to_map(src@),
    {
        let ghost orig = src@;
        let mut src = src;
        let mut out = JsonMap::new();
        let n = src.len();
        for i in 0..n
            invariant
                n == orig.len(),
                src@ == orig.skip(i as int),
                out.wf(),
                out@ == pairs_to_map(orig.take(i as int)),
        {
            let p = src.remove(0);
            proof {
                assert(p == orig[i as int]);
                assert(src@ =~= orig.skip(i as int + 1));
            }
            out.insert(p.0, p.1);
            proof {
                lemma_pairs_to_map_push(orig.take(i as int), orig[i as int]);
                assert(orig.take(i as int).push(orig[i as int]) =~= orig.take(i as int + 1));
            }
        }
        proof {
            assert(orig.take(n as int) =~= orig);
        }
        out
    }
}

/// A map sits strictly above its own entry sequence in the order that
/// justifies recursion over nested values.
pub proof fn lemma_map_decreases_to_pairs<K: MapKey>(m: JsonMap<K>)
    ensures
        decreases_to!(m => m.pairs()),
{
    assert(decreases_to!(m => m.entries));
    assert(decreases_to!(m.entries => m.entries@));
}

impl<K: MapKey> Default for JsonMap<K> {
    /// The default map is empty.
    fn default() -> (r: Self)
        ensures
            r.wf(),
            r@ == Map::<K::V, JsonV<K>>::empty(),
            r.pairs() == Seq::<(K, JsonV<K>)>::empty(),
    {
        JsonMap { entries: Vec::new() }
    }
}

} // verus!
