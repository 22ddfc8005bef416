//! The incremental engine: comparing two hash maps into a change set, and
//! merging per-file updates into an existing graph.

use crate::deps::{edges_exact, module_lists, rebuild_dependencies};
use crate::graph::{CodeGraph, FileEntry, FileEntryModel, ModuleEntry};
use crate::invariants::{
    files_in_modules, graph_invariants, law_merge_keeps_invariants, modules_own_files,
    posix_paths,
};
use crate::ordered::{
    clone_strings, contains_string, insert_at_place, insert_sorted, lemma_strictly_sorted_unique,
    strictly_sorted,
};
use crate::path_utils::is_normal;
use crate::str_map::StrMap;
use crate::summary::{file_models, recalculate_summary, same_identity, summary_exact};
use crate::text::{lex_lt, str_eq};
use vstd::prelude::*;

verus! {

// ---------------------------------------------------------------------------
// Change detection
// ---------------------------------------------------------------------------

/// The outcome of comparing the recorded file hashes with the current
/// ones: four sorted, pairwise disjoint lists of paths.
#[derive(Debug)]
pub struct ChangeSet {
    pub added: Vec<String>,
    pub modified: Vec<String>,
    pub removed: Vec<String>,
    pub unchanged: Vec<String>,
}

impl ChangeSet {
    /// Whether nothing was added, modified or removed.
    pub fn is_empty(&self) -> (r: bool)
        ensures
            r == (self.added@.len() == 0 && self.modified@.len() == 0 && self.removed@.len()
                == 0),
    {
        self.added.len() == 0 && self.modified.len() == 0 && self.removed.len() == 0
    }
}

/// `path` is in the new map only.
pub open spec fn is_added(old: StrMap<String>, new: StrMap<String>, path: Seq<char>) -> bool {
    new.has(path) && !old.has(path)
}

/// `path` is in both maps, with different hashes.
pub open spec fn is_modified(old: StrMap<String>, new: StrMap<String>, path: Seq<char>) -> bool {
    new.has(path) && old.has(path) && old.value_of(path)@ != new.value_of(path)@
}

/// `path` is in the old map only.
pub open spec fn is_removed(old: StrMap<String>, new: StrMap<String>, path: Seq<char>) -> bool {
    old.has(path) && !new.has(path)
}

/// `path` is in both maps, with the same hash.
pub open spec fn is_unchanged(old: StrMap<String>, new: StrMap<String>, path: Seq<char>) -> bool {
    new.has(path) && old.has(path) && old.value_of(path)@ == new.value_of(path)@
}

/// `cs` is the change set that leads from `old` to `new`: each list is
/// strictly ascending and holds exactly the paths of its category.
pub open spec fn is_changeset(cs: ChangeSet, old: StrMap<String>, new: StrMap<String>) -> bool {
    &&& strictly_sorted(cs.added.deep_view())
    &&& strictly_sorted(cs.modified.deep_view())
    &&& strictly_sorted(cs.removed.deep_view())
    &&& strictly_sorted(cs.unchanged.deep_view())
    &&& forall|p: Seq<char>| #[trigger] cs.added.deep_view().contains(p) <==> is_added(old, new, p)
    &&& forall|p: Seq<char>| #[trigger]
        cs.modified.deep_view().contains(p) <==> is_modified(old, new, p)
    &&& forall|p: Seq<char>| #[trigger]
        cs.removed.deep_view().contains(p) <==> is_removed(old, new, p)
    &&& forall|p: Seq<char>| #[trigger]
        cs.unchanged.deep_view().contains(p) <==> is_unchanged(old, new, p)
}

/// Membership in a sequence that grew by one element.
pub proof fn lemma_contains_push(s: Seq<Seq<char>>, x: Seq<char>, y: Seq<char>)
    ensures
        s.push(x).contains(y) <==> (s.contains(y) || y == x),
{
    let t = s.push(x);
    if s.contains(y) {
        let k = choose|k: int| 0 <= k < s.len() && s[k] == y;
        assert(t[k] == y);
    }
    assert(t[s.len() as int] == x);
    if t.contains(y) {
        let k = choose|k: int| 0 <= k < t.len() && t[k] == y;
        if k < s.len() {
            assert(s[k] == y);
        }
    }
}

/// Membership in a prefix that grew by one element.
pub proof fn lemma_contains_take_next(s: Seq<Seq<char>>, i: int, y: Seq<char>)
    requires
        0 <= i < s.len(),
    ensures
        s.take(i + 1).contains(y) <==> (s.take(i).contains(y) || y == s[i]),
{
    assert(s.take(i + 1) =~= s.take(i).push(s[i]));
    lemma_contains_push(s.take(i), s[i], y);
}

/// Appends a copy of the key at position `i` to `out`, which so far holds
/// keys from before `i` only.
fn push_key(out: &mut Vec<String>, map: &StrMap<String>, i: usize)
    requires
        map.wf(),
        i < map.keys().len(),
        strictly_sorted(old(out).deep_view()),
        forall|j: int, k: int|
            0 <= j < old(out).len() && i <= k < map.keys().len() ==> lex_lt(
                #[trigger] old(out).deep_view()[j],
                #[trigger] map.keys()[k],
            ),
    ensures
        final(out).deep_view() == old(out).deep_view().push(map.keys()[i as int]),
        strictly_sorted(final(out).deep_view()),
        forall|j: int, k: int|
            0 <= j < final(out).len() && i < k < map.keys().len() ==> lex_lt(
                #[trigger] final(out).deep_view()[j],
                #[trigger] map.keys()[k],
            ),
{
    let ghost before = out.deep_view();
    let key = map.key_at(i).clone();
    out.push(key);
    proof {
        let after = before.push(map.keys()[i as int]);
        assert(out.deep_view() =~= after);
        assert forall|j: int, k: int|
            0 <= j < after.len() && i < k < map.keys().len() implies lex_lt(
            #[trigger] after[j],
            #[trigger] map.keys()[k],
        ) by {
            if j == before.len() {
                assert(lex_lt(map.keys()[i as int], map.keys()[k]));
            } else {
                assert(after[j] == before[j]);
            }
        }
        assert forall|a: int, b: int| 0 <= a < b < after.len() implies lex_lt(
            #[trigger] after[a],
            #[trigger] after[b],
        ) by {
            if b == before.len() {
                assert(after[a] == before[a]);
                assert(lex_lt(before[a], map.keys()[i as int]));
            } else {
                assert(after[a] == before[a]);
                assert(after[b] == before[b]);
            }
        }
    }
}

/// Compares the recorded hashes with the current ones.
pub fn detect_changed_files(old_hashes: &StrMap<String>, new_hashes: &StrMap<String>) -> (cs:
    ChangeSet)
    ensures
        is_changeset(cs, *old_hashes, *new_hashes),
{
    let mut added: Vec<String> = Vec::new();
    let mut modified: Vec<String> = Vec::new();
    let mut removed: Vec<String> = Vec::new();
    let mut unchanged: Vec<String> = Vec::new();
    let n = new_hashes.len();
    let ghost nk = new_hashes.keys();
    let mut i: usize = 0;
    while i < n
        invariant
            i <= n,
            n == nk.len(),
            nk == new_hashes.keys(),
            new_hashes.wf(),
            strictly_sorted(added.deep_view()),
            strictly_sorted(modified.deep_view()),
            strictly_sorted(unchanged.deep_view()),
            forall|j: int, k: int|
                0 <= j < added.len() && i <= k < nk.len() ==> lex_lt(
                    #[trigger] added.deep_view()[j],
                    #[trigger] nk[k],
                ),
            forall|j: int, k: int|
                0 <= j < modified.len() && i <= k < nk.len() ==> lex_lt(
                    #[trigger] modified.deep_view()[j],
                    #[trigger] nk[k],
                ),
            forall|j: int, k: int|
                0 <= j < unchanged.len() && i <= k < nk.len() ==> lex_lt(
                    #[trigger] unchanged.deep_view()[j],
                    #[trigger] nk[k],
                ),
            forall|p: Seq<char>| #[trigger]
                added.deep_view().contains(p) <==> (nk.take(i as int).contains(p) && is_added(
                    *old_hashes,
                    *new_hashes,
                    p,
                )),
            forall|p: Seq<char>| #[trigger]
                modified.deep_view().contains(p) <==> (nk.take(i as int).contains(p)
                    && is_modified(*old_hashes, *new_hashes, p)),
            forall|p: Seq<char>| #[trigger]
                unchanged.deep_view().contains(p) <==> (nk.take(i as int).contains(p)
                    && is_unchanged(*old_hashes, *new_hashes, p)),
        decreases n - i,
    {
        let path = new_hashes.key_at(i);
        let new_hash = new_hashes.value_at(i);
        let ghost a0 = added.deep_view();
        let ghost m0 = modified.deep_view();
        let ghost u0 = unchanged.deep_view();
        proof {
            new_hashes.lemma_position(i as int);
        }
        match old_hashes.get(path.as_str()) {
            None => {
                push_key(&mut added, new_hashes, i);
            },
            Some(old_hash) => {
                if !str_eq(old_hash.as_str(), new_hash.as_str()) {
                    push_key(&mut modified, new_hashes, i);
                } else {
                    push_key(&mut unchanged, new_hashes, i);
                }
            },
        }
        proof {
            assert forall|p: Seq<char>| #[trigger]
                added.deep_view().contains(p) <==> (nk.take(i + 1).contains(p) && is_added(
                    *old_hashes,
                    *new_hashes,
                    p,
                )) by {
                lemma_contains_take_next(nk, i as int, p);
                lemma_contains_push(a0, nk[i as int], p);
                assert(a0.contains(p) <==> (nk.take(i as int).contains(p) && is_added(
                    *old_hashes,
                    *new_hashes,
                    p,
                )));
            }
            assert forall|p: Seq<char>| #[trigger]
                modified.deep_view().contains(p) <==> (nk.take(i + 1).contains(p)
                    && is_modified(*old_hashes, *new_hashes, p)) by {
                lemma_contains_take_next(nk, i as int, p);
                lemma_contains_push(m0, nk[i as int], p);
                assert(m0.contains(p) <==> (nk.take(i as int).contains(p) && is_modified(
                    *old_hashes,
                    *new_hashes,
                    p,
                )));
            }
            assert forall|p: Seq<char>| #[trigger]
                unchanged.deep_view().contains(p) <==> (nk.take(i + 1).contains(p)
                    && is_unchanged(*old_hashes, *new_hashes, p)) by {
                lemma_contains_take_next(nk, i as int, p);
                lemma_contains_push(u0, nk[i as int], p);
                assert(u0.contains(p) <==> (nk.take(i as int).contains(p) && is_unchanged(
                    *old_hashes,
                    *new_hashes,
                    p,
                )));
            }
        }
        i += 1;
    }
    proof {
        assert(nk.take(n as int) =~= nk);
    }
    let m = old_hashes.len();
    let ghost ok = old_hashes.keys();
    let mut j: usize = 0;
    while j < m
        invariant
            j <= m,
            m == ok.len(),
            ok == old_hashes.keys(),
            old_hashes.wf(),
            strictly_sorted(removed.deep_view()),
            forall|a: int, k: int|
                0 <= a < removed.len() && j <= k < ok.len() ==> lex_lt(
                    #[trigger] removed.deep_view()[a],
                    #[trigger] ok[k],
                ),
            forall|p: Seq<char>| #[trigger]
                removed.deep_view().contains(p) <==> (ok.take(j as int).contains(p) && is_removed(
                    *old_hashes,
                    *new_hashes,
                    p,
                )),
        decreases m - j,
    {
        let path = old_hashes.key_at(j);
        let ghost r0 = removed.deep_view();
        proof {
            old_hashes.lemma_position(j as int);
        }
        if !new_hashes.contains_key(path.as_str()) {
            push_key(&mut removed, old_hashes, j);
        }
        proof {
            assert forall|p: Seq<char>| #[trigger]
                removed.deep_view().contains(p) <==> (ok.take(j + 1).contains(p) && is_removed(
                    *old_hashes,
                    *new_hashes,
                    p,
                )) by {
                lemma_contains_take_next(ok, j as int, p);
                lemma_contains_push(r0, ok[j as int], p);
                assert(r0.contains(p) <==> (ok.take(j as int).contains(p) && is_removed(
                    *old_hashes,
                    *new_hashes,
                    p,
                )));
            }
        }
        j += 1;
    }
    proof {
        assert(ok.take(m as int) =~= ok);
    }
    ChangeSet { added, modified, removed, unchanged }
}

/// The four lists of a change set are pairwise disjoint and together hold
/// every path of either map.
pub proof fn law_changeset_partitions(cs: ChangeSet, old: StrMap<String>, new: StrMap<String>)
    requires
        is_changeset(cs, old, new),
    ensures
        forall|p: Seq<char>|
            (old.has(p) || new.has(p)) <==> (#[trigger] cs.added.deep_view().contains(p)
                || cs.modified.deep_view().contains(p) || cs.removed.deep_view().contains(p)
                || cs.unchanged.deep_view().contains(p)),
        forall|p: Seq<char>| #[trigger]
            cs.added.deep_view().contains(p) ==> !cs.modified.deep_view().contains(p)
                && !cs.removed.deep_view().contains(p) && !cs.unchanged.deep_view().contains(p),
        forall|p: Seq<char>| #[trigger]
            cs.modified.deep_view().contains(p) ==> !cs.removed.deep_view().contains(p)
                && !cs.unchanged.deep_view().contains(p),
        forall|p: Seq<char>| #[trigger]
            cs.removed.deep_view().contains(p) ==> !cs.unchanged.deep_view().contains(p),
{
    assert forall|p: Seq<char>|
        (old.has(p) || new.has(p)) <==> (#[trigger] cs.added.deep_view().contains(p)
            || cs.modified.deep_view().contains(p) || cs.removed.deep_view().contains(p)
            || cs.unchanged.deep_view().contains(p)) by {
        assert(cs.added.deep_view().contains(p) <==> is_added(old, new, p));
        assert(cs.modified.deep_view().contains(p) <==> is_modified(old, new, p));
        assert(cs.removed.deep_view().contains(p) <==> is_removed(old, new, p));
        assert(cs.unchanged.deep_view().contains(p) <==> is_unchanged(old, new, p));
    }
    assert forall|p: Seq<char>| #[trigger]
        cs.added.deep_view().contains(p) implies !cs.modified.deep_view().contains(p)
        && !cs.removed.deep_view().contains(p) && !cs.unchanged.deep_view().contains(p) by {
        assert(cs.modified.deep_view().contains(p) <==> is_modified(old, new, p));
        assert(cs.removed.deep_view().contains(p) <==> is_removed(old, new, p));
        assert(cs.unchanged.deep_view().contains(p) <==> is_unchanged(old, new, p));
    }
    assert forall|p: Seq<char>| #[trigger]
        cs.modified.deep_view().contains(p) implies !cs.removed.deep_view().contains(p)
        && !cs.unchanged.deep_view().contains(p) by {
        assert(cs.removed.deep_view().contains(p) <==> is_removed(old, new, p));
        assert(cs.unchanged.deep_view().contains(p) <==> is_unchanged(old, new, p));
    }
    assert forall|p: Seq<char>| #[trigger]
        cs.removed.deep_view().contains(p) implies !cs.unchanged.deep_view().contains(p) by {
        assert(cs.unchanged.deep_view().contains(p) <==> is_unchanged(old, new, p));
    }
}

/// Comparing a map of hashes with itself finds no change: nothing is
/// added, modified or removed, and every path is unchanged.
pub proof fn law_no_change_is_empty(cs: ChangeSet, hashes: StrMap<String>)
    requires
        hashes.wf(),
        is_changeset(cs, hashes, hashes),
    ensures
        cs.added.deep_view().len() == 0,
        cs.modified.deep_view().len() == 0,
        cs.removed.deep_view().len() == 0,
        cs.unchanged.deep_view() == hashes.keys(),
{
    let a = cs.added.deep_view();
    let m = cs.modified.deep_view();
    let r = cs.removed.deep_view();
    if a.len() > 0 {
        assert(a.contains(a[0]));
        assert(is_added(hashes, hashes, a[0]));
    }
    if m.len() > 0 {
        assert(m.contains(m[0]));
        assert(is_modified(hashes, hashes, m[0]));
    }
    if r.len() > 0 {
        assert(r.contains(r[0]));
        assert(is_removed(hashes, hashes, r[0]));
    }
    assert forall|p: Seq<char>| cs.unchanged.deep_view().contains(p) <==> hashes.keys().contains(
        p,
    ) by {
        assert(cs.unchanged.deep_view().contains(p) <==> is_unchanged(hashes, hashes, p));
    }
    lemma_strictly_sorted_unique(cs.unchanged.deep_view(), hashes.keys());
}

/// Comparing two maps that hold the same hashes under the same paths
/// finds no change: nothing is added, modified or removed.
pub proof fn law_same_hashes_no_change(cs: ChangeSet, old: StrMap<String>, new: StrMap<String>)
    requires
        is_changeset(cs, old, new),
        forall|p: Seq<char>| old.has(p) <==> new.has(p),
        forall|p: Seq<char>| old.has(p) ==> old.value_of(p)@ == new.value_of(p)@,
    ensures
        cs.added.deep_view().len() == 0,
        cs.modified.deep_view().len() == 0,
        cs.removed.deep_view().len() == 0,
{
    let a = cs.added.deep_view();
    let m = cs.modified.deep_view();
    let r = cs.removed.deep_view();
    if a.len() > 0 {
        assert(a.contains(a[0]));
        assert(is_added(old, new, a[0]));
    }
    if m.len() > 0 {
        assert(m.contains(m[0]));
        assert(is_modified(old, new, m[0]));
    }
    if r.len() > 0 {
        assert(r.contains(r[0]));
        assert(is_removed(old, new, r[0]));
    }
}

/// A change set is determined by the two maps it compares.
pub proof fn law_changeset_unique(a: ChangeSet, b: ChangeSet, old: StrMap<String>, new: StrMap<
    String,
>)
    requires
        is_changeset(a, old, new),
        is_changeset(b, old, new),
    ensures
        a.added.deep_view() == b.added.deep_view(),
        a.modified.deep_view() == b.modified.deep_view(),
        a.removed.deep_view() == b.removed.deep_view(),
        a.unchanged.deep_view() == b.unchanged.deep_view(),
{
    assert forall|p: Seq<char>| a.added.deep_view().contains(p) <==> b.added.deep_view().contains(
        p,
    ) by {
        assert(a.added.deep_view().contains(p) <==> is_added(old, new, p));
        assert(b.added.deep_view().contains(p) <==> is_added(old, new, p));
    }
    assert forall|p: Seq<char>|
        a.modified.deep_view().contains(p) <==> b.modified.deep_view().contains(p) by {
        assert(a.modified.deep_view().contains(p) <==> is_modified(old, new, p));
        assert(b.modified.deep_view().contains(p) <==> is_modified(old, new, p));
    }
    assert forall|p: Seq<char>|
        a.removed.deep_view().contains(p) <==> b.removed.deep_view().contains(p) by {
        assert(a.removed.deep_view().contains(p) <==> is_removed(old, new, p));
        assert(b.removed.deep_view().contains(p) <==> is_removed(old, new, p));
    }
    assert forall|p: Seq<char>|
        a.unchanged.deep_view().contains(p) <==> b.unchanged.deep_view().contains(p) by {
        assert(a.unchanged.deep_view().contains(p) <==> is_unchanged(old, new, p));
        assert(b.unchanged.deep_view().contains(p) <==> is_unchanged(old, new, p));
    }
    lemma_strictly_sorted_unique(a.added.deep_view(), b.added.deep_view());
    lemma_strictly_sorted_unique(a.modified.deep_view(), b.modified.deep_view());
    lemma_strictly_sorted_unique(a.removed.deep_view(), b.removed.deep_view());
    lemma_strictly_sorted_unique(a.unchanged.deep_view(), b.unchanged.deep_view());
}

// ---------------------------------------------------------------------------
// Merging
// ---------------------------------------------------------------------------

/// What a merge works on: the files by path, and the file list of every
/// module by name.
pub struct MergeState {
    pub files: Map<Seq<char>, FileEntryModel>,
    pub lists: Map<Seq<char>, Seq<Seq<char>>>,
}

/// The models of the entries of a file map, by path.
pub open spec fn file_map(files: StrMap<FileEntry>) -> Map<Seq<char>, FileEntryModel> {
    Map::new(|k: Seq<char>| files.has(k), |k: Seq<char>| files.value_of(k).deep_view())
}

/// `s` without every occurrence of `p`.
pub open spec fn without(s: Seq<Seq<char>>, p: Seq<char>) -> Seq<Seq<char>>
    decreases s.len(),
{
    if s.len() == 0 {
        s
    } else if s.last() == p {
        without(s.drop_last(), p)
    } else {
        without(s.drop_last(), p).push(s.last())
    }
}

/// Takes `path` out of the file list of `module`, if there is such a
/// module.
pub open spec fn detach(
    lists: Map<Seq<char>, Seq<Seq<char>>>,
    module: Seq<char>,
    path: Seq<char>,
) -> Map<Seq<char>, Seq<Seq<char>>> {
    if lists.dom().contains(module) {
        lists.insert(module, without(lists[module], path))
    } else {
        lists
    }
}

/// Puts `path` at its place in the file list of `module`, which is kept
/// in ascending order, unless it is in it already; the module is
/// created where it is missing.
pub open spec fn attach(
    lists: Map<Seq<char>, Seq<Seq<char>>>,
    module: Seq<char>,
    path: Seq<char>,
) -> Map<Seq<char>, Seq<Seq<char>>> {
    let cur = if lists.dom().contains(module) {
        lists[module]
    } else {
        Seq::empty()
    };
    lists.insert(
        module,
        if cur.contains(path) {
            cur
        } else {
            insert_sorted(cur, path)
        },
    )
}

/// Removing one path: its entry goes, and its module forgets it. A path
/// without an entry changes nothing.
pub open spec fn remove_step(st: MergeState, path: Seq<char>) -> MergeState {
    if st.files.dom().contains(path) {
        MergeState {
            files: st.files.remove(path),
            lists: detach(st.lists, st.files[path].module, path),
        }
    } else {
        st
    }
}

/// Installing one entry: where the path moves to another module the old
/// module forgets it; the new module lists it at its place; the entry
/// replaces what stood under the path.
pub open spec fn update_step(st: MergeState, path: Seq<char>, entry: FileEntryModel) -> MergeState {
    let lists = if st.files.dom().contains(path) && st.files[path].module != entry.module {
        detach(st.lists, st.files[path].module, path)
    } else {
        st.lists
    };
    MergeState { files: st.files.insert(path, entry), lists: attach(lists, entry.module, path) }
}

/// The state after the first `n` removals.
pub open spec fn remove_all(st: MergeState, removed: Seq<Seq<char>>, n: int) -> MergeState
    decreases n,
{
    if n <= 0 {
        st
    } else {
        remove_step(remove_all(st, removed, n - 1), removed[n - 1])
    }
}

/// The state after the first `n` updates.
pub open spec fn update_all(
    st: MergeState,
    paths: Seq<Seq<char>>,
    entries: Seq<FileEntryModel>,
    n: int,
) -> MergeState
    decreases n,
{
    if n <= 0 {
        st
    } else {
        update_step(update_all(st, paths, entries, n - 1), paths[n - 1], entries[n - 1])
    }
}

/// The file lists without the modules that have no file left.
pub open spec fn reap(lists: Map<Seq<char>, Seq<Seq<char>>>) -> Map<Seq<char>, Seq<Seq<char>>> {
    Map::new(|m: Seq<char>| lists.dom().contains(m) && lists[m].len() > 0, |m: Seq<char>| lists[m])
}

/// The files and module lists of a graph.
pub open spec fn state_of(g: CodeGraph) -> MergeState {
    MergeState { files: file_map(g.files), lists: module_lists(g.modules) }
}

/// What a merge leaves: all removals, then all updates in ascending path
/// order, then the modules without files reaped.
pub open spec fn merged(
    start: MergeState,
    paths: Seq<Seq<char>>,
    entries: Seq<FileEntryModel>,
    removed: Seq<Seq<char>>,
) -> MergeState {
    let s1 = remove_all(start, removed, removed.len() as int);
    let s2 = update_all(s1, paths, entries, paths.len() as int);
    MergeState { files: s2.files, lists: reap(s2.lists) }
}

/// A copy of `v` without the strings equal to `p`.
fn without_string(v: &Vec<String>, p: &str) -> (out: Vec<String>)
    ensures
        out.deep_view() == without(v.deep_view(), p@),
{
    let mut out: Vec<String> = Vec::new();
    let mut i: usize = 0;
    proof {
        assert(v.deep_view().take(0) =~= Seq::<Seq<char>>::empty());
        assert(out.deep_view() =~= Seq::<Seq<char>>::empty());
    }
    while i < v.len()
        invariant
            i <= v.len(),
            out.deep_view() == without(v.deep_view().take(i as int), p@),
        decreases v.len() - i,
    {
        let ghost before = out.deep_view();
        proof {
            let next = v.deep_view().take(i + 1);
            assert(next.drop_last() =~= v.deep_view().take(i as int));
            assert(next.last() == v@[i as int]@);
        }
        if !str_eq(v[i].as_str(), p) {
            out.push(v[i].clone());
            proof {
                assert(out.deep_view() =~= before.push(v@[i as int]@));
            }
        }
        i += 1;
    }
    proof {
        assert(v.deep_view().take(v@.len() as int) =~= v.deep_view());
    }
    out
}

/// Replacing the value at one position of a module map replaces the
/// file list of that module.
proof fn lemma_lists_replace(
    before: StrMap<ModuleEntry>,
    after: StrMap<ModuleEntry>,
    name: Seq<char>,
    entry: ModuleEntry,
)
    requires
        after.as_map() == before.as_map().insert(name, entry),
    ensures
        module_lists(after) == module_lists(before).insert(name, entry.files.deep_view()),
{
    let target = module_lists(before).insert(name, entry.files.deep_view());
    assert forall|k: Seq<char>| module_lists(after).dom().contains(k) <==> target.dom().contains(
        k,
    ) by {
        assert(after.as_map().dom().contains(k) <==> after.has(k));
        assert(before.as_map().dom().contains(k) <==> before.has(k));
    }
    assert forall|k: Seq<char>| module_lists(after).dom().contains(k) implies module_lists(
        after,
    )[k] == target[k] by {
        assert(after.as_map().dom().contains(k));
        assert(after.as_map()[k] == after.value_of(k));
        if k != name {
            assert(before.as_map().dom().contains(k));
            assert(before.as_map()[k] == before.value_of(k));
        }
    }
    assert(module_lists(after) =~= target);
}

/// Takes `path` out of the file list of `module`.
fn detach_file(modules: &mut StrMap<ModuleEntry>, module: &str, path: &str)
    ensures
        module_lists(*final(modules)) == detach(module_lists(*old(modules)), module@, path@),
{
    let ghost before = *modules;
    match modules.index_of(module) {
        Some(i) => {
            let cur = modules.value_at(i);
            let entry = ModuleEntry {
                files: without_string(&cur.files, path),
                depends_on: clone_strings(&cur.depends_on),
                depended_by: clone_strings(&cur.depended_by),
            };
            modules.replace_at(i, entry);
            proof {
                lemma_lists_replace(before, *modules, module@, entry);
            }
        },
        None => {},
    }
}

/// Lists `path` under `module`, creating the module where it is missing.
fn attach_file(modules: &mut StrMap<ModuleEntry>, module: &str, path: &str)
    ensures
        module_lists(*final(modules)) == attach(module_lists(*old(modules)), module@, path@),
{
    let ghost before = *modules;
    match modules.index_of(module) {
        Some(i) => {
            let cur = modules.value_at(i);
            let mut files = clone_strings(&cur.files);
            if !contains_string(&files, path) {
                insert_at_place(&mut files, path.to_owned());
            }
            let entry = ModuleEntry {
                files,
                depends_on: clone_strings(&cur.depends_on),
                depended_by: clone_strings(&cur.depended_by),
            };
            modules.replace_at(i, entry);
            proof {
                lemma_lists_replace(before, *modules, module@, entry);
            }
        },
        None => {
            let mut files: Vec<String> = Vec::new();
            files.push(path.to_owned());
            let entry = ModuleEntry { files, depends_on: Vec::new(), depended_by: Vec::new() };
            proof {
                assert(entry.files.deep_view() =~= Seq::<Seq<char>>::empty().push(path@));
                assert(!Seq::<Seq<char>>::empty().contains(path@));
                assert(insert_sorted(Seq::<Seq<char>>::empty(), path@) =~= Seq::<
                    Seq<char>,
                >::empty().push(path@));
            }
            modules.insert(module.to_owned(), entry);
            proof {
                lemma_lists_replace(before, *modules, module@, entry);
            }
        },
    }
}

/// Removes the modules that have no file.
fn reap_empty(modules: &mut StrMap<ModuleEntry>)
    ensures
        module_lists(*final(modules)) == reap(module_lists(*old(modules))),
{
    let ghost start = *modules;
    let mut i: usize = modules.len();
    proof {
        assert forall|m: Seq<char>| modules.as_map().dom().contains(m) <==> (start.has(m) && (
        start.position(m) < i || start.value_of(m).files@.len() > 0)) by {
            if start.has(m) {
                let j = start.keys().index_of(m);
                assert(0 <= j < start.keys().len());
            }
        }
    }
    while i > 0
        invariant
            i <= start.keys().len(),
            start.wf(),
            modules.wf(),
            i <= modules.keys().len(),
            modules.keys().take(i as int) == start.keys().take(i as int),
            modules.values().take(i as int) == start.values().take(i as int),
            forall|m: Seq<char>| #[trigger]
                modules.as_map().dom().contains(m) <==> (start.has(m) && (start.position(m) < i
                    || start.value_of(m).files@.len() > 0)),
            forall|m: Seq<char>| #[trigger]
                modules.as_map().dom().contains(m) ==> modules.as_map()[m] == start.value_of(m),
        decreases i,
    {
        let ghost prev = *modules;
        let ghost key = start.keys()[i - 1];
        proof {
            assert(modules.keys()[i - 1] == modules.keys().take(i as int)[i - 1]);
            assert(modules.values()[i - 1] == modules.values().take(i as int)[i - 1]);
            assert(start.keys()[i - 1] == start.keys().take(i as int)[i - 1]);
            assert(start.values()[i - 1] == start.values().take(i as int)[i - 1]);
            start.lemma_position(i - 1);
            prev.lemma_position(i - 1);
        }
        i -= 1;
        let empty = modules.value_at(i).files.len() == 0;
        if empty {
            let k = modules.key_at(i).clone();
            modules.remove(k.as_str());
        }
        proof {
            assert(modules.keys().take(i as int) =~= prev.keys().take(i + 1).take(i as int));
            assert(modules.values().take(i as int) =~= prev.values().take(i + 1).take(i as int));
            assert(start.keys().take(i as int) =~= start.keys().take(i + 1).take(i as int));
            assert(start.values().take(i as int) =~= start.values().take(i + 1).take(i as int));
            assert forall|m: Seq<char>| #[trigger]
                modules.as_map().dom().contains(m) <==> (start.has(m) && (start.position(m) < i
                    || start.value_of(m).files@.len() > 0)) by {
                assert(prev.as_map().dom().contains(m) <==> (start.has(m) && (start.position(m)
                    < i + 1 || start.value_of(m).files@.len() > 0)));
                if start.has(m) && m != key {
                    let j = start.keys().index_of(m);
                    assert(0 <= j < start.keys().len() && start.keys()[j] == m);
                    start.lemma_position(j);
                }
            }
            assert forall|m: Seq<char>| #[trigger]
                modules.as_map().dom().contains(m) implies modules.as_map()[m] == start.value_of(
                m,
            ) by {
                assert(prev.as_map().dom().contains(m));
                assert(prev.as_map()[m] == start.value_of(m));
            }
        }
    }
    proof {
        let done = *modules;
        let target = reap(module_lists(start));
        assert forall|m: Seq<char>| module_lists(done).dom().contains(m) <==> target.dom().contains(
            m,
        ) by {
            assert(done.as_map().dom().contains(m) <==> done.has(m));
            assert(start.value_of(m).files@.len() == start.value_of(m).files.deep_view().len());
        }
        assert forall|m: Seq<char>| module_lists(done).dom().contains(m) implies module_lists(
            done,
        )[m] == target[m] by {
            assert(done.as_map().dom().contains(m));
            assert(done.as_map()[m] == done.value_of(m));
        }
        assert(module_lists(done) =~= target);
    }
}

/// Removing a key from a file map removes it from its model.
pub proof fn lemma_file_map_remove(before: StrMap<FileEntry>, after: StrMap<FileEntry>, key: Seq<char>)
    requires
        after.as_map() == before.as_map().remove(key),
    ensures
        file_map(after) == file_map(before).remove(key),
{
    let target = file_map(before).remove(key);
    assert forall|k: Seq<char>| file_map(after).dom().contains(k) <==> target.dom().contains(
        k,
    ) by {
        assert(after.as_map().dom().contains(k) <==> after.has(k));
        assert(before.as_map().dom().contains(k) <==> before.has(k));
    }
    assert forall|k: Seq<char>| file_map(after).dom().contains(k) implies file_map(after)[k]
        == target[k] by {
        assert(after.as_map().dom().contains(k));
        assert(after.as_map()[k] == after.value_of(k));
        assert(before.as_map().dom().contains(k));
        assert(before.as_map()[k] == before.value_of(k));
    }
    assert(file_map(after) =~= target);
}

/// Storing an entry in a file map stores its model.
pub proof fn lemma_file_map_insert(
    before: StrMap<FileEntry>,
    after: StrMap<FileEntry>,
    key: Seq<char>,
    entry: FileEntry,
)
    requires
        after.as_map() == before.as_map().insert(key, entry),
    ensures
        file_map(after) == file_map(before).insert(key, entry.deep_view()),
{
    let target = file_map(before).insert(key, entry.deep_view());
    assert forall|k: Seq<char>| file_map(after).dom().contains(k) <==> target.dom().contains(
        k,
    ) by {
        assert(after.as_map().dom().contains(k) <==> after.has(k));
        assert(before.as_map().dom().contains(k) <==> before.has(k));
    }
    assert forall|k: Seq<char>| file_map(after).dom().contains(k) implies file_map(after)[k]
        == target[k] by {
        assert(after.as_map().dom().contains(k));
        assert(after.as_map()[k] == after.value_of(k));
        if k != key {
            assert(before.as_map().dom().contains(k));
            assert(before.as_map()[k] == before.value_of(k));
        }
    }
    assert(file_map(after) =~= target);
}

/// Merges a batch of changes into the graph: drops the removed files,
/// installs the updated entries in ascending path order, reaps the
/// modules left without files, then recomputes the summary and the
/// dependency edges. Removing a path that is not in the graph is no
/// error.
pub fn merge_graph_update(
    graph: &mut CodeGraph,
    updated_files: StrMap<FileEntry>,
    removed_files: &Vec<String>,
)
    ensures
        state_of(*final(graph)) == merged(
            state_of(*old(graph)),
            updated_files.keys(),
            file_models(updated_files),
            removed_files.deep_view(),
        ),
        summary_exact(*final(graph)),
        edges_exact(*final(graph)),
        same_identity(*final(graph), *old(graph)),
        final(graph).files.wf(),
        final(graph).modules.wf(),
        files_in_modules(*old(graph)) && modules_own_files(*old(graph)) && posix_paths(
            *old(graph),
        ) && (forall|k: int|
            0 <= k < updated_files.keys().len() ==> is_normal(
                #[trigger] updated_files.keys()[k],
            )) ==> graph_invariants(*final(graph)),
{
    let ghost start = state_of(*graph);
    let ghost removed = removed_files.deep_view();
    graph.files.valid();
    graph.modules.valid();
    let mut i: usize = 0;
    while i < removed_files.len()
        invariant
            i <= removed_files.len(),
            removed == removed_files.deep_view(),
            same_identity(*graph, *old(graph)),
            state_of(*graph) == remove_all(start, removed, i as int),
        decreases removed_files.len() - i,
    {
        let path = &removed_files[i];
        let ghost before = graph.files;
        let ghost st = state_of(*graph);
        proof {
            assert(before.as_map().dom().contains(path@) <==> before.has(path@));
        }
        match graph.files.remove(path.as_str()) {
            Some(entry) => {
                proof {
                    lemma_file_map_remove(before, graph.files, path@);
                    assert(st.files[path@].module == entry.module@);
                }
                detach_file(&mut graph.modules, entry.module.as_str(), path.as_str());
            },
            None => {
                proof {
                    assert(graph.files.as_map() =~= before.as_map());
                    assert(file_map(graph.files) =~= file_map(before));
                }
            },
        }
        proof {
            assert(state_of(*graph) == remove_step(st, removed[i as int]));
        }
        i += 1;
    }
    let ghost s1 = state_of(*graph);
    let ghost paths = updated_files.keys();
    let ghost entries = file_models(updated_files);
    let n = updated_files.len();
    let mut j: usize = 0;
    while j < n
        invariant
            j <= n,
            n == updated_files.keys().len(),
            n == updated_files.values().len(),
            paths == updated_files.keys(),
            entries == file_models(updated_files),
            same_identity(*graph, *old(graph)),
            state_of(*graph) == update_all(s1, paths, entries, j as int),
        decreases n - j,
    {
        let path = updated_files.key_at(j);
        let entry = updated_files.value_at(j).clone();
        let ghost before = graph.files;
        let ghost st = state_of(*graph);
        proof {
            assert(entries[j as int] == entry.deep_view());
        }
        let prior: Option<String> = match graph.files.get(path.as_str()) {
            Some(existing) => Some(existing.module.clone()),
            None => None,
        };
        match prior {
            Some(old_module) => {
                if !str_eq(old_module.as_str(), entry.module.as_str()) {
                    detach_file(&mut graph.modules, old_module.as_str(), path.as_str());
                }
            },
            None => {},
        }
        attach_file(&mut graph.modules, entry.module.as_str(), path.as_str());
        graph.files.insert(path.clone(), entry);
        proof {
            lemma_file_map_insert(before, graph.files, path@, entry);
            assert(state_of(*graph) == update_step(st, paths[j as int], entries[j as int]));
        }
        j += 1;
    }
    reap_empty(&mut graph.modules);
    recalculate_summary(graph);
    rebuild_dependencies(graph);
    graph.files.valid();
    graph.modules.valid();
    proof {
        if files_in_modules(*old(graph)) && modules_own_files(*old(graph)) && posix_paths(
            *old(graph),
        ) && (forall|k: int|
            0 <= k < updated_files.keys().len() ==> is_normal(
                #[trigger] updated_files.keys()[k],
            )) {
            law_merge_keeps_invariants(
                *old(graph),
                *graph,
                updated_files.keys(),
                file_models(updated_files),
                removed_files.deep_view(),
            );
        }
    }
}

} // verus!
