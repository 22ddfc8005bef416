//! What holds of every graph that a scan or an update leaves, and the
//! laws that relate scans, merges and graphs.

use crate::deps::{
    edges_exact, edges_match, edges_upto, file_edges, graph_edges, import_edges, lookup_table,
    module_lists, resolve_import_spec,
};
use crate::differ::{
    detach, file_map, merged, reap, remove_all, remove_step, state_of, update_all, update_step,
    without, MergeState,
};
use crate::graph::{CodeGraph, FileEntry, FileEntryModel};
use crate::ordered::{
    insert_sorted, lemma_insert_sorted_contains, lemma_insert_sorted_strict,
    lemma_strictly_sorted_unique, strictly_sorted,
};
use crate::text::lex_lt;
use crate::path_utils::is_normal;
use crate::str_map::StrMap;
use crate::summary::{clamp32, count_language, file_models, summary_exact};
use vstd::prelude::*;

verus! {

// ---------------------------------------------------------------------------
// The invariants
// ---------------------------------------------------------------------------

/// Every file is listed by its module: the module of each file is a
/// module of the graph, and its file list holds the path of the file.
pub open spec fn files_in_modules(g: CodeGraph) -> bool {
    forall|i: int|
        0 <= i < g.files.keys().len() ==> g.modules.has(
            (#[trigger] g.files.values()[i]).module@,
        ) && g.modules.value_of(g.files.values()[i].module@).files.deep_view().contains(
            g.files.keys()[i],
        )
}

/// No module is without files.
pub open spec fn no_empty_module(g: CodeGraph) -> bool {
    forall|k: int|
        0 <= k < g.modules.keys().len() ==> (#[trigger] g.modules.values()[k]).files@.len() > 0
}

/// The edge lists are sound: each is strictly ascending, so sorted and
/// free of duplicates; no module depends on itself; and `a` lists `b`
/// under `depends_on` exactly when `b` lists `a` under `depended_by`.
pub open spec fn edges_sound(g: CodeGraph) -> bool {
    &&& forall|k: int|
        0 <= k < g.modules.keys().len() ==> {
            let m = #[trigger] g.modules.values()[k];
            &&& strictly_sorted(m.depends_on.deep_view())
            &&& strictly_sorted(m.depended_by.deep_view())
            &&& !m.depends_on.deep_view().contains(g.modules.keys()[k])
            &&& !m.depended_by.deep_view().contains(g.modules.keys()[k])
        }
    &&& forall|a: Seq<char>, b: Seq<char>|
        g.modules.has(a) && #[trigger] g.modules.value_of(a).depends_on.deep_view().contains(b)
            ==> g.modules.has(b) && g.modules.value_of(b).depended_by.deep_view().contains(a)
    &&& forall|a: Seq<char>, b: Seq<char>|
        g.modules.has(b) && #[trigger] g.modules.value_of(b).depended_by.deep_view().contains(a)
            ==> g.modules.has(a) && g.modules.value_of(a).depends_on.deep_view().contains(b)
}

/// Every path of the graph is in normal form: written with forward
/// slashes, without empty, `.` and `..` segments.
pub open spec fn posix_paths(g: CodeGraph) -> bool {
    forall|i: int| 0 <= i < g.files.keys().len() ==> is_normal(#[trigger] g.files.keys()[i])
}

/// Every module lists files of its own alone, in ascending order and
/// each of them once.
pub open spec fn modules_own_files(g: CodeGraph) -> bool {
    lists_own(state_of(g))
}

/// The invariants of a graph: files and modules agree, no module is
/// empty, the summary is that of the files, the edges are sound, and
/// paths are in normal form.
pub open spec fn graph_invariants(g: CodeGraph) -> bool {
    &&& g.files.wf()
    &&& g.modules.wf()
    &&& files_in_modules(g)
    &&& modules_own_files(g)
    &&& no_empty_module(g)
    &&& summary_exact(g)
    &&& edges_sound(g)
    &&& posix_paths(g)
}

// ---------------------------------------------------------------------------
// Files and modules through a merge
// ---------------------------------------------------------------------------

/// Every file of the state is listed by its module.
pub open spec fn consistent(st: MergeState) -> bool {
    forall|p: Seq<char>| #[trigger]
        st.files.dom().contains(p) ==> st.lists.dom().contains(st.files[p].module)
            && st.lists[st.files[p].module].contains(p)
}

/// What a list holds once a path is taken out.
pub proof fn lemma_without_contains(s: Seq<Seq<char>>, p: Seq<char>, x: Seq<char>)
    ensures
        without(s, p).contains(x) <==> (s.contains(x) && x != p),
    decreases s.len(),
{
    if s.len() > 0 {
        let t = s.drop_last();
        lemma_without_contains(t, p, x);
        if s.contains(x) {
            let k = choose|k: int| 0 <= k < s.len() && s[k] == x;
            if k < s.len() - 1 {
                assert(t[k] == x);
            }
        }
        if t.contains(x) {
            let k = choose|k: int| 0 <= k < t.len() && t[k] == x;
            assert(s[k] == x);
        }
        if s.last() != p {
            let w = without(t, p);
            crate::differ::lemma_contains_push(w, s.last(), x);
            assert(s[s.len() - 1] == s.last());
        }
    }
}

/// Removing a path keeps the state consistent.
pub proof fn lemma_remove_step_consistent(st: MergeState, path: Seq<char>)
    requires
        consistent(st),
    ensures
        consistent(remove_step(st, path)),
{
    let next = remove_step(st, path);
    if st.files.dom().contains(path) {
        let m = st.files[path].module;
        assert forall|p: Seq<char>| #[trigger] next.files.dom().contains(p) implies next.lists.dom().contains(
            next.files[p].module,
        ) && next.lists[next.files[p].module].contains(p) by {
            assert(st.files.dom().contains(p));
            assert(p != path);
            if st.files[p].module == m {
                lemma_without_contains(st.lists[m], path, p);
            }
        }
    }
}

/// Installing an entry keeps the state consistent.
pub proof fn lemma_update_step_consistent(st: MergeState, path: Seq<char>, entry: FileEntryModel)
    requires
        consistent(st),
    ensures
        consistent(update_step(st, path, entry)),
{
    let next = update_step(st, path, entry);
    let moved = st.files.dom().contains(path) && st.files[path].module != entry.module;
    let lists1 = if moved {
        detach(st.lists, st.files[path].module, path)
    } else {
        st.lists
    };
    let cur = if lists1.dom().contains(entry.module) {
        lists1[entry.module]
    } else {
        Seq::empty()
    };
    let grown = if cur.contains(path) {
        cur
    } else {
        insert_sorted(cur, path)
    };
    assert(next.lists == lists1.insert(entry.module, grown));
    assert forall|p: Seq<char>| #[trigger] next.files.dom().contains(p) implies next.lists.dom().contains(
        next.files[p].module,
    ) && next.lists[next.files[p].module].contains(p) by {
        if p == path {
            lemma_insert_sorted_contains(cur, path, path);
        } else {
            assert(st.files.dom().contains(p));
            let m = st.files[p].module;
            assert(next.files[p].module == m);
            assert(st.lists.dom().contains(m) && st.lists[m].contains(p));
            if moved && m == st.files[path].module {
                lemma_without_contains(st.lists[m], path, p);
            }
            assert(lists1.dom().contains(m) && lists1[m].contains(p));
            if m == entry.module {
                lemma_insert_sorted_contains(cur, path, p);
            }
        }
    }
}

/// All removals keep the state consistent.
pub proof fn lemma_remove_all_consistent(st: MergeState, removed: Seq<Seq<char>>, n: int)
    requires
        consistent(st),
    ensures
        consistent(remove_all(st, removed, n)),
    decreases n,
{
    if n > 0 {
        lemma_remove_all_consistent(st, removed, n - 1);
        lemma_remove_step_consistent(remove_all(st, removed, n - 1), removed[n - 1]);
    }
}

/// All updates keep the state consistent.
pub proof fn lemma_update_all_consistent(
    st: MergeState,
    paths: Seq<Seq<char>>,
    entries: Seq<FileEntryModel>,
    n: int,
)
    requires
        consistent(st),
    ensures
        consistent(update_all(st, paths, entries, n)),
    decreases n,
{
    if n > 0 {
        lemma_update_all_consistent(st, paths, entries, n - 1);
        lemma_update_step_consistent(
            update_all(st, paths, entries, n - 1),
            paths[n - 1],
            entries[n - 1],
        );
    }
}

/// A merge keeps the state consistent and leaves no empty file list.
pub proof fn lemma_merged_consistent(
    st: MergeState,
    paths: Seq<Seq<char>>,
    entries: Seq<FileEntryModel>,
    removed: Seq<Seq<char>>,
)
    requires
        consistent(st),
    ensures
        consistent(merged(st, paths, entries, removed)),
        forall|m: Seq<char>| #[trigger]
            merged(st, paths, entries, removed).lists.dom().contains(m) ==> merged(
                st,
                paths,
                entries,
                removed,
            ).lists[m].len() > 0,
{
    let s1 = remove_all(st, removed, removed.len() as int);
    lemma_remove_all_consistent(st, removed, removed.len() as int);
    let s2 = update_all(s1, paths, entries, paths.len() as int);
    lemma_update_all_consistent(s1, paths, entries, paths.len() as int);
    let out = merged(st, paths, entries, removed);
    assert forall|p: Seq<char>| #[trigger] out.files.dom().contains(p) implies out.lists.dom().contains(
        out.files[p].module,
    ) && out.lists[out.files[p].module].contains(p) by {
        let m = s2.files[p].module;
        assert(s2.lists.dom().contains(m) && s2.lists[m].contains(p));
        assert(s2.lists[m].len() > 0);
    }
}

/// Every module lists files of its own alone, in ascending order and
/// each of them once.
pub open spec fn lists_own(st: MergeState) -> bool {
    &&& forall|m: Seq<char>, p: Seq<char>|
        st.lists.dom().contains(m) && #[trigger] st.lists[m].contains(p)
            ==> st.files.dom().contains(p) && st.files[p].module == m
    &&& forall|m: Seq<char>| #[trigger] st.lists.dom().contains(m) ==> strictly_sorted(st.lists[m])
}

/// Taking a path out of a strictly ascending list leaves it strictly
/// ascending.
pub proof fn lemma_without_sorted(s: Seq<Seq<char>>, p: Seq<char>)
    requires
        strictly_sorted(s),
    ensures
        strictly_sorted(without(s, p)),
    decreases s.len(),
{
    if s.len() > 0 {
        let t = s.drop_last();
        assert forall|i: int, j: int| 0 <= i < j < t.len() implies lex_lt(
            #[trigger] t[i],
            #[trigger] t[j],
        ) by {
            assert(lex_lt(s[i], s[j]));
        }
        lemma_without_sorted(t, p);
        if s.last() != p {
            let w = without(t, p);
            let out = w.push(s.last());
            assert forall|i: int, j: int| 0 <= i < j < out.len() implies lex_lt(
                #[trigger] out[i],
                #[trigger] out[j],
            ) by {
                if j < w.len() {
                    assert(lex_lt(w[i], w[j]));
                } else {
                    assert(w.contains(w[i]));
                    lemma_without_contains(t, p, w[i]);
                    let k = choose|k: int| 0 <= k < t.len() && t[k] == w[i];
                    assert(lex_lt(s[k], s[s.len() - 1]));
                }
            }
        }
    }
}

/// Removing a path leaves every module with files of its own.
pub proof fn lemma_remove_step_own(st: MergeState, path: Seq<char>)
    requires
        lists_own(st),
    ensures
        lists_own(remove_step(st, path)),
{
    let next = remove_step(st, path);
    if st.files.dom().contains(path) {
        let m0 = st.files[path].module;
        assert forall|m: Seq<char>, p: Seq<char>|
            next.lists.dom().contains(m) && #[trigger] next.lists[m].contains(
                p,
            ) implies next.files.dom().contains(p) && next.files[p].module == m by {
            assert(st.lists.dom().contains(m));
            if m == m0 {
                lemma_without_contains(st.lists[m0], path, p);
            }
            assert(st.lists[m].contains(p));
        }
        assert forall|m: Seq<char>| #[trigger]
            next.lists.dom().contains(m) implies strictly_sorted(next.lists[m]) by {
            assert(st.lists.dom().contains(m));
            if m == m0 {
                lemma_without_sorted(st.lists[m0], path);
            }
        }
    }
}

/// Installing an entry leaves every module with files of its own.
pub proof fn lemma_update_step_own(st: MergeState, path: Seq<char>, entry: FileEntryModel)
    requires
        lists_own(st),
    ensures
        lists_own(update_step(st, path, entry)),
{
    let next = update_step(st, path, entry);
    let moved = st.files.dom().contains(path) && st.files[path].module != entry.module;
    let lists1 = if moved {
        detach(st.lists, st.files[path].module, path)
    } else {
        st.lists
    };
    let cur = if lists1.dom().contains(entry.module) {
        lists1[entry.module]
    } else {
        Seq::empty()
    };
    let grown = if cur.contains(path) {
        cur
    } else {
        insert_sorted(cur, path)
    };
    assert(next.lists == lists1.insert(entry.module, grown));
    assert forall|m: Seq<char>, p: Seq<char>|
        lists1.dom().contains(m) && #[trigger] lists1[m].contains(p) implies st.lists.dom().contains(
            m,
        ) && st.lists[m].contains(p) && (moved && m == st.files[path].module ==> p != path) by {
        if moved && m == st.files[path].module && st.lists.dom().contains(m) {
            lemma_without_contains(st.lists[m], path, p);
        }
    }
    assert forall|m: Seq<char>| #[trigger] lists1.dom().contains(m) implies strictly_sorted(
        lists1[m],
    ) by {
        assert(st.lists.dom().contains(m));
        if moved && m == st.files[path].module {
            lemma_without_sorted(st.lists[m], path);
        }
    }
    assert forall|m: Seq<char>, p: Seq<char>|
        next.lists.dom().contains(m) && #[trigger] next.lists[m].contains(
            p,
        ) implies next.files.dom().contains(p) && next.files[p].module == m by {
        if m == entry.module {
            lemma_insert_sorted_contains(cur, path, p);
            if p != path {
                assert(lists1.dom().contains(m) && lists1[m].contains(p));
            }
        } else {
            assert(lists1.dom().contains(m) && lists1[m].contains(p));
            assert(st.lists[m].contains(p));
        }
    }
    assert forall|m: Seq<char>| #[trigger]
        next.lists.dom().contains(m) implies strictly_sorted(next.lists[m]) by {
        if m == entry.module {
            if lists1.dom().contains(m) {
                assert(strictly_sorted(cur));
            }
            if !cur.contains(path) {
                lemma_insert_sorted_strict(cur, path);
            }
        } else {
            assert(lists1.dom().contains(m));
        }
    }
}

/// All removals leave every module with files of its own.
pub proof fn lemma_remove_all_own(st: MergeState, removed: Seq<Seq<char>>, n: int)
    requires
        lists_own(st),
    ensures
        lists_own(remove_all(st, removed, n)),
    decreases n,
{
    if n > 0 {
        lemma_remove_all_own(st, removed, n - 1);
        lemma_remove_step_own(remove_all(st, removed, n - 1), removed[n - 1]);
    }
}

/// All updates leave every module with files of its own.
pub proof fn lemma_update_all_own(
    st: MergeState,
    paths: Seq<Seq<char>>,
    entries: Seq<FileEntryModel>,
    n: int,
)
    requires
        lists_own(st),
    ensures
        lists_own(update_all(st, paths, entries, n)),
    decreases n,
{
    if n > 0 {
        lemma_update_all_own(st, paths, entries, n - 1);
        lemma_update_step_own(
            update_all(st, paths, entries, n - 1),
            paths[n - 1],
            entries[n - 1],
        );
    }
}

/// A merge leaves every module with files of its own.
pub proof fn lemma_merged_own(
    st: MergeState,
    paths: Seq<Seq<char>>,
    entries: Seq<FileEntryModel>,
    removed: Seq<Seq<char>>,
)
    requires
        lists_own(st),
    ensures
        lists_own(merged(st, paths, entries, removed)),
{
    let s1 = remove_all(st, removed, removed.len() as int);
    lemma_remove_all_own(st, removed, removed.len() as int);
    lemma_update_all_own(s1, paths, entries, paths.len() as int);
}

/// The paths that a merge leaves: those it installs, and those that
/// were there before.
pub proof fn lemma_merged_paths(
    st: MergeState,
    paths: Seq<Seq<char>>,
    entries: Seq<FileEntryModel>,
    removed: Seq<Seq<char>>,
    p: Seq<char>,
)
    requires
        merged(st, paths, entries, removed).files.dom().contains(p),
    ensures
        st.files.dom().contains(p) || paths.contains(p),
{
    let s1 = remove_all(st, removed, removed.len() as int);
    lemma_update_all_paths(s1, paths, entries, paths.len() as int, p);
    if s1.files.dom().contains(p) {
        lemma_remove_all_paths(st, removed, removed.len() as int, p);
    }
}

/// Removals add no path.
proof fn lemma_remove_all_paths(st: MergeState, removed: Seq<Seq<char>>, n: int, p: Seq<char>)
    requires
        remove_all(st, removed, n).files.dom().contains(p),
    ensures
        st.files.dom().contains(p),
    decreases n,
{
    if n > 0 {
        let prev = remove_all(st, removed, n - 1);
        assert(prev.files.dom().contains(p));
        lemma_remove_all_paths(st, removed, n - 1, p);
    }
}

/// Updates add only the paths they install.
proof fn lemma_update_all_paths(
    st: MergeState,
    paths: Seq<Seq<char>>,
    entries: Seq<FileEntryModel>,
    n: int,
    p: Seq<char>,
)
    requires
        n <= paths.len(),
        update_all(st, paths, entries, n).files.dom().contains(p),
    ensures
        st.files.dom().contains(p) || paths.contains(p),
    decreases n,
{
    if n > 0 {
        let prev = update_all(st, paths, entries, n - 1);
        if p == paths[n - 1] {
            assert(paths.contains(p));
        } else {
            assert(prev.files.dom().contains(p));
            lemma_update_all_paths(st, paths, entries, n - 1, p);
        }
    }
}

// ---------------------------------------------------------------------------
// Between a graph and its state
// ---------------------------------------------------------------------------

/// The files of a graph are listed by their modules exactly when its
/// state is consistent.
pub proof fn lemma_consistent_state(g: CodeGraph)
    requires
        g.files.wf(),
        g.modules.wf(),
    ensures
        files_in_modules(g) <==> consistent(state_of(g)),
{
    let st = state_of(g);
    if files_in_modules(g) {
        assert forall|p: Seq<char>| #[trigger] st.files.dom().contains(p) implies st.lists.dom().contains(
            st.files[p].module,
        ) && st.lists[st.files[p].module].contains(p) by {
            let i = g.files.keys().index_of(p);
            assert(0 <= i < g.files.keys().len() && g.files.keys()[i] == p);
            g.files.lemma_position(i);
            let e = g.files.values()[i];
            assert(g.modules.has(e.module@));
        }
    }
    if consistent(st) {
        assert forall|i: int| 0 <= i < g.files.keys().len() implies g.modules.has(
            (#[trigger] g.files.values()[i]).module@,
        ) && g.modules.value_of(g.files.values()[i].module@).files.deep_view().contains(
            g.files.keys()[i],
        ) by {
            g.files.lemma_position(i);
            let p = g.files.keys()[i];
            assert(st.files.dom().contains(p));
            assert(st.files[p].module == g.files.values()[i].module@);
        }
    }
}

/// The keys of two valid maps with the same presence of keys are the
/// same.
pub proof fn lemma_same_keys<A, B>(a: StrMap<A>, b: StrMap<B>)
    requires
        a.wf(),
        b.wf(),
        forall|k: Seq<char>| a.has(k) <==> b.has(k),
    ensures
        a.keys() == b.keys(),
{
    assert forall|x: Seq<char>| a.keys().contains(x) <==> b.keys().contains(x) by {
        assert(a.has(x) <==> b.has(x));
    }
    lemma_strictly_sorted_unique(a.keys(), b.keys());
}

/// Two valid file maps with the same models by path have the same paths
/// and, position by position, the same models.
pub proof fn lemma_same_files(a: StrMap<FileEntry>, b: StrMap<FileEntry>)
    requires
        a.wf(),
        b.wf(),
        file_map(a) == file_map(b),
    ensures
        a.keys() == b.keys(),
        file_models(a) == file_models(b),
{
    assert forall|k: Seq<char>| a.has(k) <==> b.has(k) by {
        assert(file_map(a).dom().contains(k) <==> a.has(k));
        assert(file_map(b).dom().contains(k) <==> b.has(k));
    }
    lemma_same_keys(a, b);
    assert forall|i: int| 0 <= i < a.keys().len() implies file_models(a)[i] == file_models(b)[i] by {
        a.lemma_position(i);
        b.lemma_position(i);
        let k = a.keys()[i];
        assert(file_map(a)[k] == a.values()[i].deep_view());
        assert(file_map(b)[k] == b.values()[i].deep_view());
    }
    assert(file_models(a) =~= file_models(b));
}

// ---------------------------------------------------------------------------
// Where edges come from
// ---------------------------------------------------------------------------

/// Every value of the lookup table is the module of a file.
pub proof fn lemma_table_values(
    paths: Seq<Seq<char>>,
    entries: Seq<FileEntryModel>,
    n: int,
    key: Seq<char>,
)
    requires
        lookup_table(paths, entries, n).dom().contains(key),
    ensures
        exists|i: int| 0 <= i < n && lookup_table(paths, entries, n)[key] == (#[trigger] entries[i]).module,
    decreases n,
{
    if n > 0 {
        let prev = lookup_table(paths, entries, n - 1);
        let t = prev.insert(paths[n - 1], entries[n - 1].module);
        let stem = crate::path_utils::strip_extension_spec(paths[n - 1]);
        let table = lookup_table(paths, entries, n);
        if table[key] == entries[n - 1].module {
            assert(0 <= n - 1 < n && table[key] == entries[n - 1].module);
        } else {
            assert(prev.dom().contains(key) && prev[key] == table[key]);
            lemma_table_values(paths, entries, n - 1, key);
            let i = choose|i: int| 0 <= i < n - 1 && prev[key] == (#[trigger] entries[i]).module;
            assert(0 <= i < n && table[key] == entries[i].module);
        }
    }
}

/// An edge of a file leaves the module of the file for another module
/// that is a value of the table.
pub proof fn lemma_file_edge(
    table: Map<Seq<char>, Seq<char>>,
    path: Seq<char>,
    entry: FileEntryModel,
    n: int,
    e: (Seq<char>, Seq<char>),
)
    requires
        file_edges(table, path, entry, n).contains(e),
    ensures
        e.0 == entry.module,
        e.0 != e.1,
        exists|key: Seq<char>| #[trigger] table.dom().contains(key) && table[key] == e.1,
    decreases n,
{
    if n > 0 {
        let prev = file_edges(table, path, entry, n - 1);
        let step = import_edges(table, path, entry.module, entry.imports[n - 1]);
        let all = prev + step;
        let k = choose|k: int| 0 <= k < all.len() && all[k] == e;
        if k < prev.len() {
            assert(prev[k] == e);
            lemma_file_edge(table, path, entry, n - 1, e);
        } else {
            assert(step[k - prev.len()] == e);
            let imp = entry.imports[n - 1];
            let r = resolve_import_spec(table, path, imp.source);
            assert(r.is_some());
            let resolved = crate::path_utils::posix_normalize_spec(
                crate::path_utils::posix_dirname_spec(path) + seq!['/'] + imp.source,
            );
            if table.dom().contains(resolved) {
                assert(table.dom().contains(resolved) && table[resolved] == e.1);
            } else {
                let key = resolved + crate::deps::index_suffix();
                assert(table.dom().contains(key) && table[key] == e.1);
            }
        }
    } else {
        assert(file_edges(table, path, entry, n) =~= Seq::empty());
    }
}

/// An edge of the first `n` files leaves the module of one of them for
/// another module that is a value of the table.
pub proof fn lemma_edge_ends(
    table: Map<Seq<char>, Seq<char>>,
    paths: Seq<Seq<char>>,
    entries: Seq<FileEntryModel>,
    n: int,
    e: (Seq<char>, Seq<char>),
)
    requires
        edges_upto(table, paths, entries, n).contains(e),
    ensures
        e.0 != e.1,
        exists|i: int| 0 <= i < n && e.0 == (#[trigger] entries[i]).module,
        exists|key: Seq<char>| #[trigger] table.dom().contains(key) && table[key] == e.1,
    decreases n,
{
    if n > 0 {
        let prev = edges_upto(table, paths, entries, n - 1);
        let step = file_edges(
            table,
            paths[n - 1],
            entries[n - 1],
            entries[n - 1].imports.len() as int,
        );
        let all = prev + step;
        let k = choose|k: int| 0 <= k < all.len() && all[k] == e;
        if k < prev.len() {
            assert(prev[k] == e);
            lemma_edge_ends(table, paths, entries, n - 1, e);
            let i = choose|i: int| 0 <= i < n - 1 && e.0 == (#[trigger] entries[i]).module;
            assert(0 <= i < n && e.0 == entries[i].module);
        } else {
            assert(step[k - prev.len()] == e);
            lemma_file_edge(
                table,
                paths[n - 1],
                entries[n - 1],
                entries[n - 1].imports.len() as int,
                e,
            );
            assert(0 <= n - 1 < n && e.0 == entries[n - 1].module);
        }
    } else {
        assert(edges_upto(table, paths, entries, n) =~= Seq::empty());
    }
}

/// In a graph whose files are listed by their modules, both ends of
/// every edge are modules of the graph, and they differ.
pub proof fn lemma_edges_between_modules(g: CodeGraph, e: (Seq<char>, Seq<char>))
    requires
        g.files.wf(),
        g.modules.wf(),
        files_in_modules(g),
        graph_edges(g.files.keys(), file_models(g.files)).contains(e),
    ensures
        e.0 != e.1,
        g.modules.has(e.0),
        g.modules.has(e.1),
{
    let paths = g.files.keys();
    let entries = file_models(g.files);
    let n = paths.len() as int;
    let table = lookup_table(paths, entries, n);
    lemma_edge_ends(table, paths, entries, n, e);
    let i = choose|i: int| 0 <= i < n && e.0 == (#[trigger] entries[i]).module;
    assert(entries[i].module == g.files.values()[i].module@);
    assert(g.modules.has(g.files.values()[i].module@));
    let key = choose|key: Seq<char>| #[trigger] table.dom().contains(key) && table[key] == e.1;
    lemma_table_values(paths, entries, n, key);
    let j = choose|j: int| 0 <= j < n && table[key] == (#[trigger] entries[j]).module;
    assert(entries[j].module == g.files.values()[j].module@);
    assert(g.modules.has(g.files.values()[j].module@));
}

/// Exact edges between the modules of consistent files are sound edges.
pub proof fn lemma_exact_edges_sound(g: CodeGraph)
    requires
        g.files.wf(),
        g.modules.wf(),
        files_in_modules(g),
        edges_exact(g),
    ensures
        edges_sound(g),
{
    let edges = graph_edges(g.files.keys(), file_models(g.files));
    assert forall|k: int| 0 <= k < g.modules.keys().len() implies {
        let m = #[trigger] g.modules.values()[k];
        &&& strictly_sorted(m.depends_on.deep_view())
        &&& strictly_sorted(m.depended_by.deep_view())
        &&& !m.depends_on.deep_view().contains(g.modules.keys()[k])
        &&& !m.depended_by.deep_view().contains(g.modules.keys()[k])
    } by {
        let m = g.modules.values()[k];
        let name = g.modules.keys()[k];
        assert(edges_match(m, name, edges));
        if m.depends_on.deep_view().contains(name) {
            assert(edges.contains((name, name)));
            lemma_edges_between_modules(g, (name, name));
        }
        if m.depended_by.deep_view().contains(name) {
            assert(edges.contains((name, name)));
            lemma_edges_between_modules(g, (name, name));
        }
    }
    assert forall|a: Seq<char>, b: Seq<char>|
        g.modules.has(a) && #[trigger] g.modules.value_of(a).depends_on.deep_view().contains(
            b,
        ) implies g.modules.has(b) && g.modules.value_of(b).depended_by.deep_view().contains(a) by {
        let ka = g.modules.keys().index_of(a);
        assert(0 <= ka < g.modules.keys().len() && g.modules.keys()[ka] == a);
        g.modules.lemma_position(ka);
        assert(edges_match(g.modules.values()[ka], a, edges));
        assert(edges.contains((a, b)));
        lemma_edges_between_modules(g, (a, b));
        let kb = g.modules.keys().index_of(b);
        assert(0 <= kb < g.modules.keys().len() && g.modules.keys()[kb] == b);
        g.modules.lemma_position(kb);
        assert(edges_match(g.modules.values()[kb], b, edges));
    }
    assert forall|a: Seq<char>, b: Seq<char>|
        g.modules.has(b) && #[trigger] g.modules.value_of(b).depended_by.deep_view().contains(
            a,
        ) implies g.modules.has(a) && g.modules.value_of(a).depends_on.deep_view().contains(b) by {
        let kb = g.modules.keys().index_of(b);
        assert(0 <= kb < g.modules.keys().len() && g.modules.keys()[kb] == b);
        g.modules.lemma_position(kb);
        assert(edges_match(g.modules.values()[kb], b, edges));
        assert(edges.contains((a, b)));
        lemma_edges_between_modules(g, (a, b));
        let ka = g.modules.keys().index_of(a);
        assert(0 <= ka < g.modules.keys().len() && g.modules.keys()[ka] == a);
        g.modules.lemma_position(ka);
        assert(edges_match(g.modules.values()[ka], a, edges));
    }
}

// ---------------------------------------------------------------------------
// Laws
// ---------------------------------------------------------------------------

/// What a merge leaves meets the invariants, where it starts from a
/// consistent state and all paths at hand are in normal form.
pub proof fn lemma_merge_invariants(
    start: MergeState,
    after: CodeGraph,
    paths: Seq<Seq<char>>,
    entries: Seq<FileEntryModel>,
    removed: Seq<Seq<char>>,
)
    requires
        after.files.wf(),
        after.modules.wf(),
        consistent(start),
        lists_own(start),
        forall|p: Seq<char>| #[trigger] start.files.dom().contains(p) ==> is_normal(p),
        forall|k: int| 0 <= k < paths.len() ==> is_normal(#[trigger] paths[k]),
        state_of(after) == merged(start, paths, entries, removed),
        summary_exact(after),
        edges_exact(after),
    ensures
        graph_invariants(after),
{
    lemma_merged_consistent(start, paths, entries, removed);
    lemma_merged_own(start, paths, entries, removed);
    lemma_consistent_state(after);
    let st = state_of(after);
    assert forall|k: int| 0 <= k < after.modules.keys().len() implies (
    #[trigger] after.modules.values()[k]).files@.len() > 0 by {
        after.modules.lemma_position(k);
        let m = after.modules.keys()[k];
        assert(st.lists.dom().contains(m));
        assert(st.lists[m] == after.modules.values()[k].files.deep_view());
    }
    lemma_exact_edges_sound(after);
    assert forall|i: int| 0 <= i < after.files.keys().len() implies is_normal(
        #[trigger] after.files.keys()[i],
    ) by {
        after.files.lemma_position(i);
        let p = after.files.keys()[i];
        assert(st.files.dom().contains(p));
        lemma_merged_paths(start, paths, entries, removed, p);
        if !start.files.dom().contains(p) {
            let j = choose|j: int| 0 <= j < paths.len() && paths[j] == p;
            assert(is_normal(paths[j]));
        }
    }
}

/// A merge leaves a graph that meets the invariants: where the modules
/// of the graph listed its files, and only these, before, and all paths
/// at hand are in normal form, every invariant holds after the merge.
pub proof fn law_merge_keeps_invariants(
    before: CodeGraph,
    after: CodeGraph,
    paths: Seq<Seq<char>>,
    entries: Seq<FileEntryModel>,
    removed: Seq<Seq<char>>,
)
    requires
        before.files.wf(),
        before.modules.wf(),
        after.files.wf(),
        after.modules.wf(),
        files_in_modules(before),
        modules_own_files(before),
        posix_paths(before),
        forall|k: int| 0 <= k < paths.len() ==> is_normal(#[trigger] paths[k]),
        state_of(after) == merged(state_of(before), paths, entries, removed),
        summary_exact(after),
        edges_exact(after),
    ensures
        graph_invariants(after),
{
    lemma_consistent_state(before);
    assert forall|p: Seq<char>| #[trigger]
        state_of(before).files.dom().contains(p) implies is_normal(p) by {
        let j = before.files.keys().index_of(p);
        assert(0 <= j < before.files.keys().len() && before.files.keys()[j] == p);
    }
    lemma_merge_invariants(state_of(before), after, paths, entries, removed);
}

/// Two graphs have the same summary and the same list of languages.
pub open spec fn same_summary(a: CodeGraph, b: CodeGraph) -> bool {
    &&& a.summary.total_files == b.summary.total_files
    &&& a.summary.total_functions == b.summary.total_functions
    &&& a.summary.total_classes == b.summary.total_classes
    &&& a.summary.languages.keys() == b.summary.languages.keys()
    &&& a.summary.languages.values() == b.summary.languages.values()
    &&& a.summary.modules.deep_view() == b.summary.modules.deep_view()
    &&& a.summary.entry_points.deep_view() == b.summary.entry_points.deep_view()
    &&& a.config.languages.deep_view() == b.config.languages.deep_view()
}

/// What two graphs share when they agree in all that a scan or an
/// update determines.
pub open spec fn same_graph(a: CodeGraph, b: CodeGraph) -> bool {
    &&& a.files.keys() == b.files.keys()
    &&& file_models(a.files) == file_models(b.files)
    &&& a.modules.keys() == b.modules.keys()
    &&& forall|k: int|
        0 <= k < a.modules.keys().len() ==> (#[trigger] a.modules.values()[k]).deep_view()
            == b.modules.values()[k].deep_view()
    &&& same_summary(a, b)
}

/// What the files of a graph determine once its modules are named: two
/// graphs with the same files and the same module names, each with the
/// summary and the edges of its files, have the same edges and the same
/// summary.
pub proof fn lemma_same_derived(a: CodeGraph, b: CodeGraph)
    requires
        a.files.wf(),
        a.modules.wf(),
        b.files.wf(),
        b.modules.wf(),
        file_map(a.files) == file_map(b.files),
        a.modules.keys() == b.modules.keys(),
        summary_exact(a),
        summary_exact(b),
        edges_exact(a),
        edges_exact(b),
    ensures
        a.files.keys() == b.files.keys(),
        file_models(a.files) == file_models(b.files),
        forall|k: int|
            0 <= k < a.modules.keys().len() ==> (#[trigger] a.modules.values()[k]).depends_on.deep_view()
                == b.modules.values()[k].depends_on.deep_view() && a.modules.values()[k].depended_by.deep_view()
                == b.modules.values()[k].depended_by.deep_view(),
        same_summary(a, b),
{
    lemma_same_files(a.files, b.files);
    let edges = graph_edges(a.files.keys(), file_models(a.files));
    assert forall|k: int| 0 <= k < a.modules.keys().len() implies (
    #[trigger] a.modules.values()[k]).depends_on.deep_view()
        == b.modules.values()[k].depends_on.deep_view() && a.modules.values()[k].depended_by.deep_view()
        == b.modules.values()[k].depended_by.deep_view() by {
        let name = a.modules.keys()[k];
        let ma = a.modules.values()[k];
        let mb = b.modules.values()[k];
        assert(edges_match(ma, name, edges));
        assert(edges_match(mb, name, edges));
        assert forall|t: Seq<char>|
            ma.depends_on.deep_view().contains(t) <==> mb.depends_on.deep_view().contains(t) by {
            assert(ma.depends_on.deep_view().contains(t) <==> edges.contains((name, t)));
            assert(mb.depends_on.deep_view().contains(t) <==> edges.contains((name, t)));
        }
        assert forall|s: Seq<char>|
            ma.depended_by.deep_view().contains(s) <==> mb.depended_by.deep_view().contains(s) by {
            assert(ma.depended_by.deep_view().contains(s) <==> edges.contains((s, name)));
            assert(mb.depended_by.deep_view().contains(s) <==> edges.contains((s, name)));
        }
        lemma_strictly_sorted_unique(ma.depends_on.deep_view(), mb.depends_on.deep_view());
        lemma_strictly_sorted_unique(ma.depended_by.deep_view(), mb.depended_by.deep_view());
    }
    let la = a.summary.languages;
    let lb = b.summary.languages;
    let entries = file_models(a.files);
    let n = entries.len() as int;
    assert forall|l: Seq<char>| la.has(l) <==> lb.has(l) by {
        assert(la.has(l) <==> count_language(entries, l, n) > 0);
        assert(lb.has(l) <==> count_language(entries, l, n) > 0);
    }
    lemma_same_keys(la, lb);
    assert forall|i: int| 0 <= i < la.keys().len() implies la.values()[i] == lb.values()[i] by {
        la.lemma_position(i);
        lb.lemma_position(i);
        let l = la.keys()[i];
        assert(la.value_of(l) == clamp32(count_language(entries, l, n)));
        assert(lb.value_of(l) == clamp32(count_language(entries, l, n)));
    }
    assert(la.values() =~= lb.values());
}

/// A graph is determined by its files and the file lists of its
/// modules: two graphs that agree in these, each with the summary and
/// the edges of its files, agree in everything but their identity and
/// time stamp.
pub proof fn law_graph_determined(a: CodeGraph, b: CodeGraph)
    requires
        a.files.wf(),
        a.modules.wf(),
        b.files.wf(),
        b.modules.wf(),
        state_of(a) == state_of(b),
        summary_exact(a),
        summary_exact(b),
        edges_exact(a),
        edges_exact(b),
    ensures
        same_graph(a, b),
{
    assert forall|k: Seq<char>| a.modules.has(k) <==> b.modules.has(k) by {
        assert(module_lists(a.modules).dom().contains(k) <==> a.modules.has(k));
        assert(module_lists(b.modules).dom().contains(k) <==> b.modules.has(k));
    }
    lemma_same_keys(a.modules, b.modules);
    lemma_same_derived(a, b);
    assert forall|k: int| 0 <= k < a.modules.keys().len() implies (
    #[trigger] a.modules.values()[k]).deep_view() == b.modules.values()[k].deep_view() by {
        let name = a.modules.keys()[k];
        a.modules.lemma_position(k);
        b.modules.lemma_position(k);
        assert(module_lists(a.modules)[name] == a.modules.values()[k].files.deep_view());
        assert(module_lists(b.modules)[name] == b.modules.values()[k].files.deep_view());
    }
}

/// Merging nothing into a graph that has no empty module leaves its
/// files and file lists as they are.
pub proof fn law_merge_of_nothing_keeps_state(st: MergeState)
    requires
        forall|m: Seq<char>| #[trigger] st.lists.dom().contains(m) ==> st.lists[m].len() > 0,
    ensures
        merged(st, Seq::empty(), Seq::empty(), Seq::empty()) == st,
{
    assert(reap(st.lists) =~= st.lists);
}

/// Merging nothing into a graph that a scan or an update left changes
/// nothing in it: files, modules with their edges, and the summary stay
/// as they are.
pub proof fn law_merge_of_nothing(before: CodeGraph, after: CodeGraph)
    requires
        before.files.wf(),
        before.modules.wf(),
        after.files.wf(),
        after.modules.wf(),
        no_empty_module(before),
        summary_exact(before),
        edges_exact(before),
        state_of(after) == merged(state_of(before), Seq::empty(), Seq::empty(), Seq::empty()),
        summary_exact(after),
        edges_exact(after),
    ensures
        same_graph(before, after),
{
    let st = state_of(before);
    assert forall|m: Seq<char>| #[trigger] st.lists.dom().contains(m) implies st.lists[m].len()
        > 0 by {
        let k = before.modules.keys().index_of(m);
        assert(0 <= k < before.modules.keys().len() && before.modules.keys()[k] == m);
        before.modules.lemma_position(k);
        assert(before.modules.values()[k].files@.len() > 0);
    }
    law_merge_of_nothing_keeps_state(st);
    law_graph_determined(before, after);
}

/// The graph of no files is empty: no file, no module, every count
/// zero, no language and no entry point.
pub proof fn law_empty_project(g: CodeGraph)
    requires
        g.files.wf(),
        g.modules.wf(),
        state_of(g) == merged(
            MergeState { files: Map::empty(), lists: Map::empty() },
            Seq::empty(),
            Seq::empty(),
            Seq::empty(),
        ),
        summary_exact(g),
    ensures
        g.files.keys().len() == 0,
        g.modules.keys().len() == 0,
        g.summary.total_files == 0,
        g.summary.total_functions == 0,
        g.summary.total_classes == 0,
        g.summary.languages.keys().len() == 0,
        g.summary.modules.deep_view().len() == 0,
        g.summary.entry_points.deep_view().len() == 0,
{
    let st = state_of(g);
    if g.files.keys().len() > 0 {
        g.files.lemma_position(0);
        assert(st.files.dom().contains(g.files.keys()[0]));
    }
    if g.modules.keys().len() > 0 {
        g.modules.lemma_position(0);
        assert(st.lists.dom().contains(g.modules.keys()[0]));
    }
    let la = g.summary.languages;
    if la.keys().len() > 0 {
        la.lemma_position(0);
        assert(la.has(la.keys()[0]));
    }
    assert(file_models(g.files).len() == 0);
}

} // verus!
