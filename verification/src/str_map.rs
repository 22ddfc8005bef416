//! A map keyed by strings that keeps its keys in ascending order, so that
//! every walk over it is deterministic.

use crate::ordered::{
    clone_strings, find_sorted, lemma_insert_keeps_strict, lemma_strict_is_sorted, lower_bound,
    strictly_sorted,
};
use crate::text::{lemma_lex_connected, lemma_lex_irreflexive, lex_lt, str_eq};
use vstd::prelude::*;

verus! {

/// A map from strings to `V`, held as two parallel vectors with the keys
/// strictly ascending.
#[derive(Debug)]
pub struct StrMap<V> {
    keys: Vec<String>,
    vals: Vec<V>,
}

/// Inserts a key and its value at the same position of both vectors.
fn insert_pair<V>(keys: &mut Vec<String>, vals: &mut Vec<V>, at: usize, key: String, value: V)
    requires
        at <= old(keys).len(),
        old(keys).len() == old(vals).len(),
    ensures
        final(keys)@ == old(keys)@.insert(at as int, key),
        final(vals)@ == old(vals)@.insert(at as int, value),
{
    keys.insert(at, key);
    vals.insert(at, value);
}

/// Removes the entry at one position from both vectors.
fn remove_pair<V>(keys: &mut Vec<String>, vals: &mut Vec<V>, at: usize) -> (value: V)
    requires
        at < old(keys).len(),
        old(keys).len() == old(vals).len(),
    ensures
        final(keys)@ == old(keys)@.remove(at as int),
        final(vals)@ == old(vals)@.remove(at as int),
        value == old(vals)@[at as int],
{
    keys.remove(at);
    vals.remove(at)
}

impl<V> StrMap<V> {
    #[verifier::type_invariant]
    spec fn inv(self) -> bool {
        self.keys.len() == self.vals.len() && strictly_sorted(self.keys.deep_view())
    }

    /// The keys, in ascending order.
    pub closed spec fn keys(self) -> Seq<Seq<char>> {
        self.keys.deep_view()
    }

    /// The values, each at the position of its key.
    pub closed spec fn values(self) -> Seq<V> {
        self.vals@
    }

    /// Validity: one value per key, keys strictly ascending. Every map
    /// that executable code holds is valid.
    pub open spec fn wf(self) -> bool {
        self.keys().len() == self.values().len() && strictly_sorted(self.keys())
    }

    /// Whether `key` is present.
    pub open spec fn has(self, key: Seq<char>) -> bool {
        self.keys().contains(key)
    }

    /// The position of `key` among the keys.
    pub open spec fn position(self, key: Seq<char>) -> int {
        self.keys().index_of(key)
    }

    /// The value stored under `key`.
    pub open spec fn value_of(self, key: Seq<char>) -> V {
        self.values()[self.position(key)]
    }

    /// The map as a mathematical map.
    pub open spec fn as_map(self) -> Map<Seq<char>, V> {
        Map::new(|k: Seq<char>| self.has(k), |k: Seq<char>| self.value_of(k))
    }

    /// In a valid map a key stands at exactly one position.
    pub proof fn lemma_position(self, i: int)
        requires
            self.wf(),
            0 <= i < self.keys().len(),
        ensures
            self.has(self.keys()[i]),
            self.position(self.keys()[i]) == i,
            self.value_of(self.keys()[i]) == self.values()[i],
    {
        let ks = self.keys();
        lemma_strict_is_sorted(ks);
        assert(ks.contains(ks[i]));
        let j = ks.index_of(ks[i]);
        assert(0 <= j < ks.len() && ks[j] == ks[i]);
    }

    /// Moves both vectors out and leaves the map empty.
    fn take_parts(&mut self) -> (parts: (Vec<String>, Vec<V>))
        ensures
            parts.0 == old(self).keys,
            parts.1 == old(self).vals,
    {
        let mut tmp = StrMap { keys: Vec::new(), vals: Vec::new() };
        proof {
            assert(tmp.keys.deep_view() =~= Seq::<Seq<char>>::empty());
        }
        std::mem::swap(self, &mut tmp);
        let StrMap { keys, vals } = tmp;
        (keys, vals)
    }

    /// An empty map.
    pub fn new() -> (m: Self)
        ensures
            m.keys() == Seq::<Seq<char>>::empty(),
            m.values() == Seq::<V>::empty(),
            m.wf(),
    {
        let m = StrMap { keys: Vec::new(), vals: Vec::new() };
        proof {
            assert(m.keys.deep_view() =~= Seq::<Seq<char>>::empty());
        }
        m
    }

    /// Every map that executable code holds is valid; a call makes this
    /// known where it is needed.
    pub fn valid(&self)
        ensures
            self.wf(),
    {
        proof {
            use_type_invariant(self);
        }
    }

    /// The number of entries.
    pub fn len(&self) -> (n: usize)
        ensures
            n == self.keys().len(),
            n == self.values().len(),
            self.wf(),
    {
        proof {
            use_type_invariant(self);
        }
        self.keys.len()
    }

    /// Whether the map holds nothing.
    pub fn is_empty(&self) -> (r: bool)
        ensures
            r == (self.keys().len() == 0),
    {
        self.keys.len() == 0
    }

    /// The key at position `i`.
    pub fn key_at(&self, i: usize) -> (k: &String)
        requires
            i < self.keys().len(),
        ensures
            k@ == self.keys()[i as int],
    {
        &self.keys[i]
    }

    /// The value at position `i`.
    pub fn value_at(&self, i: usize) -> (v: &V)
        requires
            i < self.values().len(),
        ensures
            *v == self.values()[i as int],
    {
        &self.vals[i]
    }

    /// The position of `key`, if present.
    pub fn index_of(&self, key: &str) -> (r: Option<usize>)
        ensures
            self.wf(),
            match r {
                Some(i) => i < self.keys().len() && self.keys()[i as int] == key@ && self.has(key@)
                    && self.position(key@) == i,
                None => !self.has(key@),
            },
    {
        proof {
            use_type_invariant(self);
        }
        let r = find_sorted(&self.keys, key);
        proof {
            if let Some(i) = r {
                self.lemma_position(i as int);
            }
        }
        r
    }

    /// Whether `key` is present.
    pub fn contains_key(&self, key: &str) -> (r: bool)
        ensures
            r == self.has(key@),
    {
        self.index_of(key).is_some()
    }

    /// The value stored under `key`, if any.
    pub fn get(&self, key: &str) -> (r: Option<&V>)
        ensures
            self.wf(),
            match r {
                Some(v) => self.has(key@) && *v == self.value_of(key@),
                None => !self.has(key@),
            },
    {
        proof {
            use_type_invariant(self);
        }
        match self.index_of(key) {
            Some(i) => Some(&self.vals[i]),
            None => None,
        }
    }

    /// Stores `value` under `key`, replacing what stood there, and returns
    /// what was replaced.
    pub fn insert(&mut self, key: String, value: V) -> (prev: Option<V>)
        ensures
            final(self).wf(),
            old(self).wf(),
            final(self).as_map() == old(self).as_map().insert(key@, value),
            match prev {
                Some(v) => {
                    &&& old(self).has(key@)
                    &&& v == old(self).value_of(key@)
                    &&& final(self).keys() == old(self).keys()
                    &&& final(self).values() == old(self).values().update(
                        old(self).position(key@),
                        value,
                    )
                },
                None => {
                    &&& !old(self).has(key@)
                    &&& exists|at: int|
                        0 <= at <= old(self).keys().len() && final(self).keys() == old(self).keys().insert(
                            at,
                            key@,
                        ) && final(self).values() == old(self).values().insert(at, value)
                },
            },
    {
        proof {
            use_type_invariant(&*self);
            lemma_strict_is_sorted(self.keys.deep_view());
        }
        let ghost ks = self.keys.deep_view();
        let ghost vs = self.vals@;
        let ghost before = *self;
        let at = lower_bound(&self.keys, key.as_str());
        if at < self.keys.len() && str_eq(self.keys[at].as_str(), key.as_str()) {
            proof {
                before.lemma_position(at as int);
            }
            let (keys, mut vals) = self.take_parts();
            let mut value = value;
            vals.push(value);
            let prev = vals.swap_remove(at);
            proof {
                assert(vals@ =~= vs.update(at as int, vals@[at as int]));
            }
            *self = StrMap { keys, vals };
            proof {
                lemma_update_map(before, *self, at as int);
            }
            Some(prev)
        } else {
            let ghost kv = key@;
            proof {
                assert forall|j: int| at <= j < ks.len() implies lex_lt(kv, #[trigger] ks[j]) by {
                    lemma_lex_connected(ks[j], kv);
                    if ks[j] == kv && j > at {
                        assert(lex_lt(ks[at as int], ks[j]));
                    }
                }
                lemma_insert_keeps_strict(ks, at as int, kv);
                assert forall|j: int| 0 <= j < ks.len() implies ks[j] != kv by {
                    lemma_lex_irreflexive(kv);
                }
            }
            let (mut keys, mut vals) = self.take_parts();
            insert_pair(&mut keys, &mut vals, at, key, value);
            proof {
                assert(keys.deep_view() =~= ks.insert(at as int, kv));
            }
            *self = StrMap { keys, vals };
            proof {
                lemma_insert_map(before, *self, at as int, kv, value);
            }
            None
        }
    }

    /// Removes `key` and returns its value, if it was present.
    pub fn remove(&mut self, key: &str) -> (prev: Option<V>)
        ensures
            final(self).wf(),
            old(self).wf(),
            final(self).as_map() == old(self).as_map().remove(key@),
            match prev {
                Some(v) => {
                    &&& old(self).has(key@)
                    &&& v == old(self).value_of(key@)
                    &&& final(self).keys() == old(self).keys().remove(old(self).position(key@))
                    &&& final(self).values() == old(self).values().remove(
                        old(self).position(key@),
                    )
                },
                None => {
                    &&& !old(self).has(key@)
                    &&& final(self).keys() == old(self).keys()
                    &&& final(self).values() == old(self).values()
                },
            },
    {
        proof {
            use_type_invariant(&*self);
        }
        let ghost ks = self.keys.deep_view();
        let ghost before = *self;
        match find_sorted(&self.keys, key) {
            Some(at) => {
                proof {
                    before.lemma_position(at as int);
                }
                let (mut keys, mut vals) = self.take_parts();
                let v = remove_pair(&mut keys, &mut vals, at);
                proof {
                    assert(keys.deep_view() =~= ks.remove(at as int));
                    assert forall|i: int, j: int|
                        0 <= i < j < ks.remove(at as int).len() implies lex_lt(
                        #[trigger] ks.remove(at as int)[i],
                        #[trigger] ks.remove(at as int)[j],
                    ) by {
                        let si = if i < at {
                            i
                        } else {
                            i + 1
                        };
                        let sj = if j < at {
                            j
                        } else {
                            j + 1
                        };
                        assert(lex_lt(ks[si], ks[sj]));
                    }
                }
                *self = StrMap { keys, vals };
                proof {
                    lemma_remove_map(before, *self, at as int);
                }
                Some(v)
            },
            None => {
                proof {
                    assert(self.as_map() =~= before.as_map().remove(key@));
                }
                None
            },
        }
    }

    /// Replaces the value at position `i`, and returns what stood there.
    pub fn replace_at(&mut self, i: usize, value: V) -> (prev: V)
        requires
            i < old(self).keys().len(),
        ensures
            final(self).wf(),
            old(self).wf(),
            final(self).keys() == old(self).keys(),
            final(self).values() == old(self).values().update(i as int, value),
            final(self).as_map() == old(self).as_map().insert(old(self).keys()[i as int], value),
            prev == old(self).values()[i as int],
    {
        proof {
            use_type_invariant(&*self);
        }
        let ghost vs = self.vals@;
        let ghost before = *self;
        let (keys, mut vals) = self.take_parts();
        vals.push(value);
        let prev = vals.swap_remove(i);
        proof {
            assert(vals@ =~= vs.update(i as int, value));
        }
        *self = StrMap { keys, vals };
        proof {
            lemma_update_map(before, *self, i as int);
        }
        prev
    }

    /// A map of keys that stand in strictly ascending order and their
    /// values.
    pub fn from_sorted(keys: Vec<String>, values: Vec<V>) -> (out: Self)
        requires
            keys.len() == values.len(),
            strictly_sorted(keys.deep_view()),
        ensures
            out.keys() == keys.deep_view(),
            out.values() == values@,
            out.wf(),
    {
        StrMap { keys, vals: values }
    }

    /// A copy of the map, for values that are plain data.
    pub fn duplicate(&self) -> (out: Self) where V: Copy
        ensures
            out.keys() == self.keys(),
            out.values() == self.values(),
            out.wf(),
    {
        proof {
            use_type_invariant(self);
        }
        let keys = clone_strings(&self.keys);
        let mut vals: Vec<V> = Vec::new();
        let mut i: usize = 0;
        while i < self.vals.len()
            invariant
                i <= self.vals.len(),
                vals@ == self.vals@.take(i as int),
            decreases self.vals.len() - i,
        {
            vals.push(self.vals[i]);
            proof {
                assert(vals@ =~= self.vals@.take(i + 1));
            }
            i += 1;
        }
        proof {
            assert(self.vals@.take(self.vals@.len() as int) =~= self.vals@);
            assert(vals@ == self.vals@);
            assert(keys.deep_view().len() == keys.len());
            assert(self.keys.deep_view().len() == self.keys.len());
        }
        StrMap { keys, vals }
    }

    /// A copy of the keys, in ascending order.
    pub fn key_list(&self) -> (out: Vec<String>)
        ensures
            out.deep_view() == self.keys(),
            strictly_sorted(out.deep_view()),
    {
        proof {
            use_type_invariant(self);
        }
        clone_strings(&self.keys)
    }
}

/// Updating one value of a valid map updates that key in its map view.
proof fn lemma_update_map<V>(a: StrMap<V>, b: StrMap<V>, at: int)
    requires
        a.wf(),
        0 <= at < a.keys().len(),
        b.keys() == a.keys(),
        b.values() == a.values().update(at, b.values()[at]),
    ensures
        b.wf(),
        b.as_map() == a.as_map().insert(a.keys()[at], b.values()[at]),
{
    let k = a.keys()[at];
    a.lemma_position(at);
    assert forall|x: Seq<char>| b.as_map().dom().contains(x) <==> a.as_map().insert(
        k,
        b.values()[at],
    ).dom().contains(x) by {}
    assert forall|x: Seq<char>| b.as_map().dom().contains(x) implies b.as_map()[x]
        == a.as_map().insert(k, b.values()[at])[x] by {
        let i = a.keys().index_of(x);
        assert(0 <= i < a.keys().len() && a.keys()[i] == x);
        a.lemma_position(i);
    }
    assert(b.as_map() =~= a.as_map().insert(k, b.values()[at]));
}

/// Inserting a fresh key at its sorted position adds it to the map view.
proof fn lemma_insert_map<V>(a: StrMap<V>, b: StrMap<V>, at: int, k: Seq<char>, v: V)
    requires
        a.wf(),
        0 <= at <= a.keys().len(),
        !a.has(k),
        b.keys() == a.keys().insert(at, k),
        b.values() == a.values().insert(at, v),
        strictly_sorted(b.keys()),
    ensures
        b.wf(),
        b.as_map() == a.as_map().insert(k, v),
{
    let target = a.as_map().insert(k, v);
    assert forall|x: Seq<char>| b.as_map().dom().contains(x) <==> target.dom().contains(x) by {
        if b.has(x) {
            let i = b.keys().index_of(x);
            assert(0 <= i < b.keys().len() && b.keys()[i] == x);
            if i < at {
                assert(a.keys()[i] == x);
            } else if i > at {
                assert(a.keys()[i - 1] == x);
            }
        }
        if a.has(x) {
            let i = a.keys().index_of(x);
            assert(0 <= i < a.keys().len() && a.keys()[i] == x);
            if i < at {
                assert(b.keys()[i] == x);
            } else {
                assert(b.keys()[i + 1] == x);
            }
        }
        assert(b.keys()[at] == k);
    }
    assert forall|x: Seq<char>| b.as_map().dom().contains(x) implies b.as_map()[x]
        == target[x] by {
        let i = b.keys().index_of(x);
        assert(0 <= i < b.keys().len() && b.keys()[i] == x);
        b.lemma_position(i);
        if i < at {
            a.lemma_position(i);
        } else if i > at {
            a.lemma_position(i - 1);
        }
    }
    assert(b.as_map() =~= target);
}

/// Removing the entry at one position removes its key from the map view.
proof fn lemma_remove_map<V>(a: StrMap<V>, b: StrMap<V>, at: int)
    requires
        a.wf(),
        0 <= at < a.keys().len(),
        b.keys() == a.keys().remove(at),
        b.values() == a.values().remove(at),
        strictly_sorted(b.keys()),
    ensures
        b.wf(),
        b.as_map() == a.as_map().remove(a.keys()[at]),
{
    let k = a.keys()[at];
    let target = a.as_map().remove(k);
    a.lemma_position(at);
    lemma_strict_is_sorted(a.keys());
    assert forall|x: Seq<char>| b.as_map().dom().contains(x) <==> target.dom().contains(x) by {
        if b.has(x) {
            let i = b.keys().index_of(x);
            assert(0 <= i < b.keys().len() && b.keys()[i] == x);
            if i < at {
                assert(a.keys()[i] == x);
            } else {
                assert(a.keys()[i + 1] == x);
            }
        }
        if a.has(x) && x != k {
            let i = a.keys().index_of(x);
            assert(0 <= i < a.keys().len() && a.keys()[i] == x);
            if i < at {
                assert(b.keys()[i] == x);
            } else {
                assert(b.keys()[i - 1] == x);
            }
        }
    }
    assert forall|x: Seq<char>| b.as_map().dom().contains(x) implies b.as_map()[x]
        == target[x] by {
        let i = b.keys().index_of(x);
        assert(0 <= i < b.keys().len() && b.keys()[i] == x);
        b.lemma_position(i);
        if i < at {
            a.lemma_position(i);
        } else {
            a.lemma_position(i + 1);
        }
    }
    assert(b.as_map() =~= target);
}

} // verus!
