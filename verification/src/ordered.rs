//! Sorted sequences of strings: searching, sorting and duplicate-free
//! insertion, all with respect to the lexicographic order of `text`.

use crate::text::{
    lemma_lex_asymmetric, lemma_lex_connected, lemma_lex_irreflexive, lemma_lex_transitive, lex_le,
    lex_lt, str_eq, str_lt,
};
use vstd::prelude::*;

verus! {

/// Every element is at most the elements after it.
pub open spec fn sorted(s: Seq<Seq<char>>) -> bool {
    forall|i: int, j: int| 0 <= i < j < s.len() ==> lex_le(#[trigger] s[i], #[trigger] s[j])
}

/// Every element is strictly below the elements after it.
pub open spec fn strictly_sorted(s: Seq<Seq<char>>) -> bool {
    forall|i: int, j: int| 0 <= i < j < s.len() ==> lex_lt(#[trigger] s[i], #[trigger] s[j])
}

/// `a` and `b` hold the same elements, whatever their order and count.
pub open spec fn same_elements(a: Seq<Seq<char>>, b: Seq<Seq<char>>) -> bool {
    forall|x: Seq<char>| a.contains(x) <==> b.contains(x)
}

/// A strictly sorted sequence is sorted and holds nothing twice.
pub proof fn lemma_strict_is_sorted(s: Seq<Seq<char>>)
    requires
        strictly_sorted(s),
    ensures
        sorted(s),
        s.no_duplicates(),
{
    assert forall|i: int, j: int| 0 <= i < s.len() && 0 <= j < s.len() && i != j implies s[i]
        != s[j] by {
        lemma_lex_irreflexive(s[i]);
        if i < j {
            assert(lex_lt(s[i], s[j]));
        } else {
            assert(lex_lt(s[j], s[i]));
        }
    }
}

/// Two strictly sorted sequences with the same elements are the same
/// sequence.
pub proof fn lemma_strictly_sorted_unique(a: Seq<Seq<char>>, b: Seq<Seq<char>>)
    requires
        strictly_sorted(a),
        strictly_sorted(b),
        same_elements(a, b),
    ensures
        a == b,
    decreases a.len(),
{
    if a.len() == 0 {
        if b.len() > 0 {
            assert(b.contains(b[0]));
            assert(a.contains(b[0]));
        }
        assert(a =~= b);
    } else if b.len() == 0 {
        assert(a.contains(a[0]));
        assert(b.contains(a[0]));
    } else {
        let x = a.last();
        let y = b.last();
        assert(a.contains(x));
        assert(b.contains(y));
        assert(b.contains(x));
        assert(a.contains(y));
        let j = choose|j: int| 0 <= j < b.len() && b[j] == x;
        let i = choose|i: int| 0 <= i < a.len() && a[i] == y;
        if x != y {
            assert(i < a.len() - 1);
            assert(j < b.len() - 1);
            assert(lex_lt(a[i], a[a.len() - 1]));
            assert(lex_lt(b[j], b[b.len() - 1]));
            lemma_lex_asymmetric(x, y);
        }
        let a0 = a.drop_last();
        let b0 = b.drop_last();
        assert forall|z: Seq<char>| a0.contains(z) <==> b0.contains(z) by {
            lemma_lex_irreflexive(x);
            if a0.contains(z) {
                let k = choose|k: int| 0 <= k < a0.len() && a0[k] == z;
                assert(a[k] == z);
                assert(lex_lt(a[k], a[a.len() - 1]));
                assert(a.contains(z));
                let m = choose|m: int| 0 <= m < b.len() && b[m] == z;
                assert(m < b.len() - 1);
                assert(b0[m] == z);
            }
            if b0.contains(z) {
                let k = choose|k: int| 0 <= k < b0.len() && b0[k] == z;
                assert(b[k] == z);
                assert(lex_lt(b[k], b[b.len() - 1]));
                assert(b.contains(z));
                let m = choose|m: int| 0 <= m < a.len() && a[m] == z;
                assert(m < a.len() - 1);
                assert(a0[m] == z);
            }
        }
        assert(strictly_sorted(a0)) by {
            assert forall|p: int, q: int| 0 <= p < q < a0.len() implies lex_lt(a0[p], a0[q]) by {
                assert(lex_lt(a[p], a[q]));
            }
        }
        assert(strictly_sorted(b0)) by {
            assert forall|p: int, q: int| 0 <= p < q < b0.len() implies lex_lt(b0[p], b0[q]) by {
                assert(lex_lt(b[p], b[q]));
            }
        }
        lemma_strictly_sorted_unique(a0, b0);
        assert(a =~= a0.push(x));
        assert(b =~= b0.push(y));
    }
}

/// The first position whose element is not below `key`.
pub fn lower_bound(v: &Vec<String>, key: &str) -> (at: usize)
    requires
        sorted(v.deep_view()),
    ensures
        at <= v.len(),
        forall|j: int| 0 <= j < at ==> lex_lt(#[trigger] v.deep_view()[j], key@),
        forall|j: int| at <= j < v.len() ==> !lex_lt(#[trigger] v.deep_view()[j], key@),
{
    let ghost s = v.deep_view();
    let mut lo: usize = 0;
    let mut hi: usize = v.len();
    while lo < hi
        invariant
            lo <= hi <= v.len(),
            s == v.deep_view(),
            sorted(s),
            forall|j: int| 0 <= j < lo ==> lex_lt(#[trigger] s[j], key@),
            forall|j: int| hi <= j < v.len() ==> !lex_lt(#[trigger] s[j], key@),
        decreases hi - lo,
    {
        let mid: usize = lo + (hi - lo) / 2;
        if str_lt(v[mid].as_str(), key) {
            proof {
                assert(s[mid as int] == v@[mid as int]@);
                assert forall|j: int| 0 <= j < mid + 1 implies lex_lt(#[trigger] s[j], key@) by {
                    if j < mid {
                        assert(lex_le(s[j], s[mid as int]));
                        if s[j] != s[mid as int] {
                            lemma_lex_transitive(s[j], s[mid as int], key@);
                        }
                    }
                }
            }
            lo = mid + 1;
        } else {
            proof {
                assert(s[mid as int] == v@[mid as int]@);
                assert forall|j: int| mid <= j < v.len() implies !lex_lt(#[trigger] s[j], key@) by {
                    if j > mid {
                        assert(lex_le(s[mid as int], s[j]));
                        if lex_lt(s[j], key@) && s[j] != s[mid as int] {
                            lemma_lex_transitive(s[mid as int], s[j], key@);
                        }
                    }
                }
            }
            hi = mid;
        }
    }
    lo
}

/// Looks `key` up in a strictly sorted vector.
pub fn find_sorted(v: &Vec<String>, key: &str) -> (r: Option<usize>)
    requires
        strictly_sorted(v.deep_view()),
    ensures
        match r {
            Some(i) => i < v.len() && v.deep_view()[i as int] == key@,
            None => !v.deep_view().contains(key@),
        },
{
    proof {
        lemma_strict_is_sorted(v.deep_view());
    }
    let at = lower_bound(v, key);
    if at < v.len() && str_eq(v[at].as_str(), key) {
        Some(at)
    } else {
        proof {
            let s = v.deep_view();
            assert forall|j: int| 0 <= j < s.len() implies s[j] != key@ by {
                lemma_lex_irreflexive(key@);
                if j > at {
                    assert(lex_lt(s[at as int], s[j]));
                    lemma_lex_connected(s[at as int], key@);
                    if lex_lt(key@, s[at as int]) {
                        lemma_lex_transitive(key@, s[at as int], s[j]);
                    }
                }
            }
        }
        None
    }
}

/// Whether a vector of strings holds `key`.
pub fn contains_string(v: &Vec<String>, key: &str) -> (r: bool)
    ensures
        r == v.deep_view().contains(key@),
{
    let mut i: usize = 0;
    while i < v.len()
        invariant
            i <= v.len(),
            forall|j: int| 0 <= j < i ==> v.deep_view()[j] != key@,
        decreases v.len() - i,
    {
        if str_eq(v[i].as_str(), key) {
            proof {
                assert(v.deep_view()[i as int] == key@);
            }
            return true;
        }
        i += 1;
    }
    false
}

/// Inserting `x` at `at` into a strictly sorted sequence keeps it strictly
/// sorted when everything before is below `x` and everything after above.
pub proof fn lemma_insert_keeps_strict(s: Seq<Seq<char>>, at: int, x: Seq<char>)
    requires
        strictly_sorted(s),
        0 <= at <= s.len(),
        forall|j: int| 0 <= j < at ==> lex_lt(#[trigger] s[j], x),
        forall|j: int| at <= j < s.len() ==> lex_lt(x, #[trigger] s[j]),
    ensures
        strictly_sorted(s.insert(at, x)),
        forall|y: Seq<char>| s.insert(at, x).contains(y) <==> (s.contains(y) || y == x),
{
    let t = s.insert(at, x);
    assert forall|i: int, j: int| 0 <= i < j < t.len() implies lex_lt(
        #[trigger] t[i],
        #[trigger] t[j],
    ) by {
        let si = if i < at {
            i
        } else {
            i - 1
        };
        let sj = if j < at {
            j
        } else {
            j - 1
        };
        if i == at {
            assert(t[j] == s[sj]);
        } else if j == at {
            assert(t[i] == s[si]);
        } else {
            assert(t[i] == s[si]);
            assert(t[j] == s[sj]);
            assert(lex_lt(s[si], s[sj]));
        }
    }
    assert forall|y: Seq<char>| t.contains(y) <==> (s.contains(y) || y == x) by {
        if t.contains(y) {
            let k = choose|k: int| 0 <= k < t.len() && t[k] == y;
            if k < at {
                assert(s[k] == y);
            } else if k > at {
                assert(s[k - 1] == y);
            }
        }
        if s.contains(y) {
            let k = choose|k: int| 0 <= k < s.len() && s[k] == y;
            if k < at {
                assert(t[k] == y);
            } else {
                assert(t[k + 1] == y);
            }
        }
        assert(t[at] == x);
    }
}

/// Adds `x` to a strictly sorted vector unless it is there already, and
/// says whether it was added.
pub fn insert_unique(v: &mut Vec<String>, x: String) -> (added: bool)
    requires
        strictly_sorted(old(v).deep_view()),
    ensures
        strictly_sorted(final(v).deep_view()),
        added == !old(v).deep_view().contains(x@),
        forall|y: Seq<char>| #[trigger]
            final(v).deep_view().contains(y) <==> (old(v).deep_view().contains(y) || y == x@),
        !added ==> final(v).deep_view() == old(v).deep_view(),
{
    let ghost s = v.deep_view();
    proof {
        lemma_strict_is_sorted(s);
    }
    let at = lower_bound(v, x.as_str());
    if at < v.len() && str_eq(v[at].as_str(), x.as_str()) {
        proof {
            assert(s[at as int] == x@);
            assert(s.contains(x@));
        }
        false
    } else {
        proof {
            assert forall|j: int| at <= j < s.len() implies lex_lt(x@, #[trigger] s[j]) by {
                lemma_lex_connected(s[j], x@);
                if s[j] == x@ {
                    if j > at {
                        assert(lex_lt(s[at as int], s[j]));
                    }
                }
            }
            lemma_insert_keeps_strict(s, at as int, x@);
            assert forall|j: int| 0 <= j < s.len() implies s[j] != x@ by {
                lemma_lex_irreflexive(x@);
            }
        }
        let ghost xs = x@;
        v.insert(at, x);
        proof {
            let t = s.insert(at as int, xs);
            assert(v.deep_view() =~= t);
            assert forall|y: Seq<char>| #[trigger]
                v.deep_view().contains(y) <==> (s.contains(y) || y == xs) by {
                assert(t.contains(y) <==> (s.contains(y) || y == xs));
            }
        }
        true
    }
}

/// `s` with `x` put behind the last element that is not above it.
pub open spec fn insert_sorted(s: Seq<Seq<char>>, x: Seq<char>) -> Seq<Seq<char>>
    decreases s.len(),
{
    if s.len() > 0 && lex_lt(x, s.last()) {
        insert_sorted(s.drop_last(), x).push(s.last())
    } else {
        s.push(x)
    }
}

/// What a list holds once `x` is put at its place.
pub proof fn lemma_insert_sorted_contains(s: Seq<Seq<char>>, x: Seq<char>, y: Seq<char>)
    ensures
        insert_sorted(s, x).contains(y) <==> (s.contains(y) || y == x),
    decreases s.len(),
{
    if s.len() > 0 && lex_lt(x, s.last()) {
        let t = s.drop_last();
        let u = insert_sorted(t, x);
        lemma_insert_sorted_contains(t, x, y);
        let out = u.push(s.last());
        assert(out[u.len() as int] == s.last());
        assert(s[s.len() - 1] == s.last());
        if u.contains(y) {
            let k = choose|k: int| 0 <= k < u.len() && u[k] == y;
            assert(out[k] == y);
        }
        if t.contains(y) {
            let k = choose|k: int| 0 <= k < t.len() && t[k] == y;
            assert(s[k] == y);
        }
        if out.contains(y) {
            let k = choose|k: int| 0 <= k < out.len() && out[k] == y;
            if k < u.len() {
                assert(u[k] == y);
            }
        }
        if s.contains(y) {
            let k = choose|k: int| 0 <= k < s.len() && s[k] == y;
            if k < t.len() {
                assert(t[k] == y);
            }
        }
    } else {
        let out = s.push(x);
        assert(out[s.len() as int] == x);
        if s.contains(y) {
            let k = choose|k: int| 0 <= k < s.len() && s[k] == y;
            assert(out[k] == y);
        }
        if out.contains(y) {
            let k = choose|k: int| 0 <= k < out.len() && out[k] == y;
            if k < s.len() {
                assert(s[k] == y);
            }
        }
    }
}

/// A strictly ascending list stays so once a new element is put at its
/// place.
pub proof fn lemma_insert_sorted_strict(s: Seq<Seq<char>>, x: Seq<char>)
    requires
        strictly_sorted(s),
        !s.contains(x),
    ensures
        strictly_sorted(insert_sorted(s, x)),
    decreases s.len(),
{
    if s.len() > 0 && lex_lt(x, s.last()) {
        let t = s.drop_last();
        assert forall|i: int, j: int| 0 <= i < j < t.len() implies lex_lt(
            #[trigger] t[i],
            #[trigger] t[j],
        ) by {
            assert(lex_lt(s[i], s[j]));
        }
        if t.contains(x) {
            let k = choose|k: int| 0 <= k < t.len() && t[k] == x;
            assert(s[k] == x);
        }
        lemma_insert_sorted_strict(t, x);
        let u = insert_sorted(t, x);
        let out = u.push(s.last());
        assert forall|i: int, j: int| 0 <= i < j < out.len() implies lex_lt(
            #[trigger] out[i],
            #[trigger] out[j],
        ) by {
            if j < u.len() {
                assert(lex_lt(u[i], u[j]));
            } else {
                lemma_insert_sorted_contains(t, x, u[i]);
                assert(u.contains(u[i]));
                if u[i] != x {
                    let k = choose|k: int| 0 <= k < t.len() && t[k] == u[i];
                    assert(lex_lt(s[k], s[s.len() - 1]));
                }
            }
        }
    } else {
        let out = s.push(x);
        assert forall|i: int, j: int| 0 <= i < j < out.len() implies lex_lt(
            #[trigger] out[i],
            #[trigger] out[j],
        ) by {
            if j < s.len() {
                assert(lex_lt(s[i], s[j]));
            } else {
                let last = s.last();
                assert(s.contains(last)) by {
                    assert(s[s.len() - 1] == last);
                }
                lemma_lex_connected(x, last);
                assert(lex_lt(last, x));
                if i < s.len() - 1 {
                    assert(lex_lt(s[i], s[s.len() - 1]));
                    lemma_lex_transitive(s[i], last, x);
                }
            }
        }
    }
}

/// Puts `x` at its place in `v`: behind the last element that is not
/// above it.
pub fn insert_at_place(v: &mut Vec<String>, x: String)
    ensures
        final(v).deep_view() == insert_sorted(old(v).deep_view(), x@),
{
    let ghost s = v.deep_view();
    let mut at: usize = v.len();
    while at > 0 && str_lt(x.as_str(), v[at - 1].as_str())
        invariant
            at <= v.len(),
            v.deep_view() == s,
            forall|j: int| at <= j < s.len() ==> lex_lt(x@, #[trigger] s[j]),
        decreases at,
    {
        proof {
            assert(s[at - 1] == v@[at - 1]@);
        }
        at -= 1;
    }
    proof {
        if at > 0 {
            assert(s[at - 1] == v@[at - 1]@);
        }
        lemma_insert_sorted_at(s, x@, at as int);
    }
    let ghost name = x@;
    v.insert(at, x);
    proof {
        assert(v.deep_view() =~= s.insert(at as int, name));
    }
}

/// The elements of `s` in ascending order, equal elements in the order
/// in which they stand in `s`.
pub open spec fn sort_spec(s: Seq<Seq<char>>) -> Seq<Seq<char>>
    decreases s.len(),
{
    if s.len() == 0 {
        Seq::empty()
    } else {
        insert_sorted(sort_spec(s.drop_last()), s.last())
    }
}

/// Putting `x` at the position behind the last element that is not
/// above it.
pub proof fn lemma_insert_sorted_at(s: Seq<Seq<char>>, x: Seq<char>, at: int)
    requires
        0 <= at <= s.len(),
        forall|j: int| at <= j < s.len() ==> lex_lt(x, #[trigger] s[j]),
        at > 0 ==> !lex_lt(x, s[at - 1]),
    ensures
        insert_sorted(s, x) == s.insert(at, x),
    decreases s.len(),
{
    if s.len() > 0 && lex_lt(x, s.last()) {
        assert(at < s.len());
        let t = s.drop_last();
        assert forall|j: int| at <= j < t.len() implies lex_lt(x, #[trigger] t[j]) by {
            assert(t[j] == s[j]);
        }
        if at > 0 {
            assert(t[at - 1] == s[at - 1]);
        }
        lemma_insert_sorted_at(t, x, at);
        assert(t.insert(at, x).push(s.last()) =~= s.insert(at, x));
    } else {
        if at < s.len() {
            assert(lex_lt(x, s[s.len() - 1]));
        }
        assert(s.push(x) =~= s.insert(at, x));
    }
}

/// Sorts strings into ascending order, keeping duplicates and, among
/// equal strings, their order.
pub fn sort_strings(v: &Vec<String>) -> (out: Vec<String>)
    ensures
        out.deep_view() == sort_spec(v.deep_view()),
        sorted(out.deep_view()),
        out.deep_view().to_multiset() == v.deep_view().to_multiset(),
        out.len() == v.len(),
{
    let mut out: Vec<String> = Vec::new();
    let mut i: usize = 0;
    proof {
        assert(v.deep_view().take(0) =~= Seq::<Seq<char>>::empty());
        assert(out.deep_view() =~= Seq::<Seq<char>>::empty());
        assert(sort_spec(v.deep_view().take(0)) =~= Seq::<Seq<char>>::empty());
    }
    while i < v.len()
        invariant
            i <= v.len(),
            out.len() == i,
            sorted(out.deep_view()),
            out.deep_view() == sort_spec(v.deep_view().take(i as int)),
            out.deep_view().to_multiset() == v.deep_view().take(i as int).to_multiset(),
        decreases v.len() - i,
    {
        let x = v[i].clone();
        let ghost s = out.deep_view();
        let ghost xs = x@;
        let at = upper_bound(&out, x.as_str());
        out.insert(at, x);
        proof {
            let t = s.insert(at as int, xs);
            assert(out.deep_view() =~= t);
            assert forall|p: int, q: int| 0 <= p < q < t.len() implies lex_le(
                #[trigger] t[p],
                #[trigger] t[q],
            ) by {
                let sp = if p < at {
                    p
                } else {
                    p - 1
                };
                let sq = if q < at {
                    q
                } else {
                    q - 1
                };
                if p == at {
                    assert(t[q] == s[sq]);
                } else if q == at {
                    assert(t[p] == s[sp]);
                } else {
                    assert(t[p] == s[sp]);
                    assert(t[q] == s[sq]);
                    assert(lex_le(s[sp], s[sq]));
                }
            }
            vstd::seq_lib::to_multiset_insert(s, at as int, xs);
            let pre = v.deep_view().take(i as int);
            assert(v.deep_view().take(i + 1) =~= pre.push(xs));
            vstd::seq_lib::to_multiset_build(pre, xs);
            lemma_insert_sorted_at(s, xs, at as int);
            assert(v.deep_view().take(i + 1).drop_last() =~= pre);
        }
        i += 1;
    }
    proof {
        assert(v.deep_view().take(v@.len() as int) =~= v.deep_view());
    }
    out
}

/// The first position whose element is above `key`.
fn upper_bound(v: &Vec<String>, key: &str) -> (at: usize)
    requires
        sorted(v.deep_view()),
    ensures
        at <= v.len(),
        forall|j: int| 0 <= j < at ==> lex_le(#[trigger] v.deep_view()[j], key@),
        forall|j: int| at <= j < v.len() ==> lex_le(key@, #[trigger] v.deep_view()[j]),
        forall|j: int| at <= j < v.len() ==> lex_lt(key@, #[trigger] v.deep_view()[j]),
        at > 0 ==> !lex_lt(key@, v.deep_view()[at - 1]),
{
    let ghost s = v.deep_view();
    let mut at: usize = v.len();
    while at > 0 && str_lt(key, v[at - 1].as_str())
        invariant
            at <= v.len(),
            s == v.deep_view(),
            forall|j: int| at <= j < v.len() ==> lex_le(key@, #[trigger] s[j]),
            forall|j: int| at <= j < v.len() ==> lex_lt(key@, #[trigger] s[j]),
        decreases at,
    {
        proof {
            assert(s[at - 1] == v@[at - 1]@);
        }
        at -= 1;
    }
    proof {
        if at > 0 {
            assert(s[at - 1] == v@[at - 1]@);
            lemma_lex_connected(s[at - 1], key@);
            assert forall|j: int| 0 <= j < at implies lex_le(#[trigger] s[j], key@) by {
                if j < at - 1 {
                    assert(lex_le(s[j], s[at - 1]));
                    if s[j] != s[at - 1] && s[at - 1] != key@ {
                        lemma_lex_transitive(s[j], s[at - 1], key@);
                    }
                }
            }
        }
    }
    at
}

/// The distinct strings of `v` in ascending order.
pub fn sorted_distinct(v: &Vec<String>) -> (out: Vec<String>)
    ensures
        strictly_sorted(out.deep_view()),
        same_elements(out.deep_view(), v.deep_view()),
{
    let mut out: Vec<String> = Vec::new();
    let mut i: usize = 0;
    while i < v.len()
        invariant
            i <= v.len(),
            strictly_sorted(out.deep_view()),
            forall|y: Seq<char>|
                out.deep_view().contains(y) <==> v.deep_view().take(i as int).contains(y),
        decreases v.len() - i,
    {
        let ghost before = out.deep_view();
        let ghost pre = v.deep_view().take(i as int);
        let x = v[i].clone();
        insert_unique(&mut out, x);
        proof {
            let next = v.deep_view().take(i + 1);
            assert(next =~= pre.push(v@[i as int]@));
            assert forall|y: Seq<char>| out.deep_view().contains(y) <==> next.contains(y) by {
                if pre.contains(y) {
                    let k = choose|k: int| 0 <= k < pre.len() && pre[k] == y;
                    assert(next[k] == y);
                }
                assert(next[i as int] == v@[i as int]@);
                if next.contains(y) {
                    let k = choose|k: int| 0 <= k < next.len() && next[k] == y;
                    if k < i {
                        assert(pre[k] == y);
                    }
                }
            }
        }
        i += 1;
    }
    proof {
        assert(v.deep_view().take(v@.len() as int) =~= v.deep_view());
    }
    out
}

/// A copy of a vector of strings.
pub fn clone_strings(v: &Vec<String>) -> (out: Vec<String>)
    ensures
        out.deep_view() == v.deep_view(),
{
    let mut out: Vec<String> = Vec::new();
    let mut i: usize = 0;
    while i < v.len()
        invariant
            i <= v.len(),
            out.deep_view() == v.deep_view().take(i as int),
        decreases v.len() - i,
    {
        let ghost before = out.deep_view();
        let x = v[i].clone();
        out.push(x);
        proof {
            assert(out.deep_view() =~= before.push(v@[i as int]@));
            assert(v.deep_view().take(i + 1) =~= before.push(v@[i as int]@));
        }
        i += 1;
    }
    proof {
        assert(v.deep_view().take(v@.len() as int) =~= v.deep_view());
    }
    out
}

} // verus!
