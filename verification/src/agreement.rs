//! An update and a full scan agree. A graph that meets the invariants is
//! determined by its files, and an update leaves the files that a scan of
//! the current sources gives.

use crate::deps::{edges_exact, table_view};
use crate::differ::{
    file_map, is_changeset, lemma_contains_take_next, merged, remove_all, state_of, update_all,
    ChangeSet, MergeState,
};
use crate::graph::{CodeGraph, FileEntry, FileEntryModel};
use crate::invariants::{
    consistent, graph_invariants, lemma_consistent_state, lemma_same_derived, lemma_same_keys,
    same_graph,
};
use crate::ordered::{lemma_strictly_sorted_unique, strictly_sorted};
use crate::scanner::{
    all_parsed, any_cpp, changed_paths, changed_trees, hashes_of, is_changeset_to, is_graph_of,
    is_scan_of, is_update_of, law_scan_invariants, law_sources_parse, law_update_invariants,
    lemma_graph_files, lemma_record_at, lemma_record_hashes, lemma_source_positions,
    nothing_changed, parsed_trees, records_of, source_hashes, source_positions, stands_changed,
    SourceFile,
};
use crate::str_map::StrMap;
use crate::summary::file_models;
use crate::syntax::{SyntaxTree, TreeModel};
use vstd::prelude::*;

verus! {

// ---------------------------------------------------------------------------
// A graph is determined by its files
// ---------------------------------------------------------------------------

/// Whether some file belongs to module `m`.
pub open spec fn has_file_in(files: Map<Seq<char>, FileEntryModel>, m: Seq<char>) -> bool {
    exists|p: Seq<char>| files.dom().contains(p) && (#[trigger] files[p]).module == m
}

/// In a graph that meets the invariants the modules are those that some
/// file belongs to, and each lists exactly the files that belong to it.
pub proof fn lemma_modules_of_files(g: CodeGraph)
    requires
        graph_invariants(g),
    ensures
        forall|m: Seq<char>| #[trigger] g.modules.has(m) <==> has_file_in(file_map(g.files), m),
        forall|m: Seq<char>, p: Seq<char>|
            g.modules.has(m) ==> (#[trigger] g.modules.value_of(m).files.deep_view().contains(p)
                <==> file_map(g.files).dom().contains(p) && file_map(g.files)[p].module == m),
        forall|k: int|
            0 <= k < g.modules.keys().len() ==> strictly_sorted(
                (#[trigger] g.modules.values()[k]).files.deep_view(),
            ),
{
    let st = state_of(g);
    lemma_consistent_state(g);
    assert forall|m: Seq<char>| #[trigger] g.modules.has(m) <==> has_file_in(
        file_map(g.files),
        m,
    ) by {
        if g.modules.has(m) {
            let k = g.modules.keys().index_of(m);
            g.modules.lemma_position(k);
            let list = g.modules.values()[k].files.deep_view();
            assert(list.len() == g.modules.values()[k].files@.len());
            assert(st.lists.dom().contains(m) && st.lists[m] == list);
            assert(list.contains(list[0]));
            assert(st.files.dom().contains(list[0]) && st.files[list[0]].module == m);
        }
        if has_file_in(file_map(g.files), m) {
            let p = choose|p: Seq<char>|
                file_map(g.files).dom().contains(p) && (#[trigger] file_map(g.files)[p]).module
                    == m;
            assert(st.files.dom().contains(p));
            assert(st.lists.dom().contains(st.files[p].module));
        }
    }
    assert forall|m: Seq<char>, p: Seq<char>| g.modules.has(m) implies (
    #[trigger] g.modules.value_of(m).files.deep_view().contains(p) <==> file_map(
        g.files,
    ).dom().contains(p) && file_map(g.files)[p].module == m) by {
        assert(st.lists.dom().contains(m) && st.lists[m] == g.modules.value_of(m).files.deep_view());
        if st.files.dom().contains(p) && st.files[p].module == m {
            assert(st.lists[st.files[p].module].contains(p));
        }
    }
    assert forall|k: int| 0 <= k < g.modules.keys().len() implies strictly_sorted(
        (#[trigger] g.modules.values()[k]).files.deep_view(),
    ) by {
        g.modules.lemma_position(k);
        let m = g.modules.keys()[k];
        assert(st.lists.dom().contains(m) && st.lists[m] == g.modules.values()[k].files.deep_view());
    }
}

/// A graph that meets the invariants, with the edges of its files, is
/// determined by its files: two such graphs with the same files agree
/// in everything but their identity and their time stamp.
pub proof fn law_files_determine_graph(a: CodeGraph, b: CodeGraph)
    requires
        graph_invariants(a),
        graph_invariants(b),
        edges_exact(a),
        edges_exact(b),
        file_map(a.files) == file_map(b.files),
    ensures
        same_graph(a, b),
{
    lemma_modules_of_files(a);
    lemma_modules_of_files(b);
    assert forall|m: Seq<char>| a.modules.has(m) <==> b.modules.has(m) by {
        assert(a.modules.has(m) <==> has_file_in(file_map(a.files), m));
        assert(b.modules.has(m) <==> has_file_in(file_map(b.files), m));
    }
    lemma_same_keys(a.modules, b.modules);
    lemma_same_derived(a, b);
    assert forall|k: int| 0 <= k < a.modules.keys().len() implies (
    #[trigger] a.modules.values()[k]).deep_view() == b.modules.values()[k].deep_view() by {
        let m = a.modules.keys()[k];
        a.modules.lemma_position(k);
        b.modules.lemma_position(k);
        let x = a.modules.values()[k].files.deep_view();
        let y = b.modules.values()[k].files.deep_view();
        assert(strictly_sorted(y));
        assert forall|p: Seq<char>| x.contains(p) <==> y.contains(p) by {
            assert(a.modules.value_of(m).files.deep_view().contains(p) <==> file_map(
                a.files,
            ).dom().contains(p) && file_map(a.files)[p].module == m);
            assert(b.modules.value_of(m).files.deep_view().contains(p) <==> file_map(
                b.files,
            ).dom().contains(p) && file_map(b.files)[p].module == m);
        }
        lemma_strictly_sorted_unique(x, y);
    }
}

// ---------------------------------------------------------------------------
// The files that a merge leaves
// ---------------------------------------------------------------------------

/// The files after the first `n` removals: those of the start that were
/// not removed, each with its entry.
pub proof fn lemma_removed_files(st: MergeState, removed: Seq<Seq<char>>, n: int)
    requires
        0 <= n <= removed.len(),
    ensures
        forall|p: Seq<char>| #[trigger]
            remove_all(st, removed, n).files.dom().contains(p) <==> st.files.dom().contains(p)
                && !removed.take(n).contains(p),
        forall|p: Seq<char>| #[trigger]
            remove_all(st, removed, n).files.dom().contains(p) ==> remove_all(
                st,
                removed,
                n,
            ).files[p] == st.files[p],
    decreases n,
{
    if n > 0 {
        lemma_removed_files(st, removed, n - 1);
        let prev = remove_all(st, removed, n - 1).files;
        let next = remove_all(st, removed, n).files;
        assert(next == prev.remove(removed[n - 1]) || next == prev);
        assert forall|p: Seq<char>| #[trigger] next.dom().contains(p) <==> st.files.dom().contains(
            p,
        ) && !removed.take(n).contains(p) by {
            lemma_contains_take_next(removed, n - 1, p);
        }
    } else {
        assert(removed.take(0) =~= Seq::<Seq<char>>::empty());
    }
}

/// The files after the first `n` entries of `updated` are installed:
/// those entries, and the files of the start under every other path.
pub proof fn lemma_updated_files(st: MergeState, updated: StrMap<FileEntry>, n: int)
    requires
        updated.wf(),
        0 <= n <= updated.keys().len(),
    ensures
        forall|p: Seq<char>| #[trigger]
            update_all(st, updated.keys(), file_models(updated), n).files.dom().contains(p) <==> (
            st.files.dom().contains(p) || updated.keys().take(n).contains(p)),
        forall|p: Seq<char>| #[trigger]
            update_all(st, updated.keys(), file_models(updated), n).files.dom().contains(p)
                ==> update_all(st, updated.keys(), file_models(updated), n).files[p] == if updated.keys().take(
                n,
            ).contains(p) {
                file_map(updated)[p]
            } else {
                st.files[p]
            },
    decreases n,
{
    let keys = updated.keys();
    let models = file_models(updated);
    if n > 0 {
        lemma_updated_files(st, updated, n - 1);
        let prev = update_all(st, keys, models, n - 1).files;
        let next = update_all(st, keys, models, n).files;
        assert(next == prev.insert(keys[n - 1], models[n - 1]));
        updated.lemma_position(n - 1);
        assert forall|p: Seq<char>| #[trigger] next.dom().contains(p) <==> (st.files.dom().contains(
            p,
        ) || keys.take(n).contains(p)) by {
            lemma_contains_take_next(keys, n - 1, p);
        }
        assert forall|p: Seq<char>| #[trigger] next.dom().contains(p) implies next[p] == if keys.take(
            n,
        ).contains(p) {
            file_map(updated)[p]
        } else {
            st.files[p]
        } by {
            lemma_contains_take_next(keys, n - 1, p);
            if p != keys[n - 1] {
                assert(prev.dom().contains(p));
            }
        }
    } else {
        assert(keys.take(0) =~= Seq::<Seq<char>>::empty());
    }
}

/// The files that a merge leaves: the updated entries, and the files of
/// the start that were neither removed nor updated.
pub proof fn lemma_merged_files(st: MergeState, updated: StrMap<FileEntry>, removed: Seq<Seq<char>>)
    requires
        updated.wf(),
    ensures
        forall|p: Seq<char>| #[trigger]
            merged(st, updated.keys(), file_models(updated), removed).files.dom().contains(p) <==> (
            updated.has(p) || (st.files.dom().contains(p) && !removed.contains(p))),
        forall|p: Seq<char>| #[trigger]
            merged(st, updated.keys(), file_models(updated), removed).files.dom().contains(p)
                ==> merged(st, updated.keys(), file_models(updated), removed).files[p]
                == if updated.has(p) {
                file_map(updated)[p]
            } else {
                st.files[p]
            },
{
    let s1 = remove_all(st, removed, removed.len() as int);
    lemma_removed_files(st, removed, removed.len() as int);
    lemma_updated_files(s1, updated, updated.keys().len() as int);
    assert(removed.take(removed.len() as int) =~= removed);
    assert(updated.keys().take(updated.keys().len() as int) =~= updated.keys());
    let out = merged(st, updated.keys(), file_models(updated), removed).files;
    assert(out == update_all(s1, updated.keys(), file_models(updated), updated.keys().len() as int).files);
    assert forall|p: Seq<char>| #[trigger] out.dom().contains(p) <==> (updated.has(p) || (
    st.files.dom().contains(p) && !removed.contains(p))) by {
        assert(s1.files.dom().contains(p) <==> st.files.dom().contains(p) && !removed.contains(p));
    }
    assert forall|p: Seq<char>| #[trigger] out.dom().contains(p) implies out[p] == if updated.has(
        p,
    ) {
        file_map(updated)[p]
    } else {
        st.files[p]
    } by {
        if !updated.has(p) {
            assert(s1.files.dom().contains(p));
        }
    }
}

// ---------------------------------------------------------------------------
// An update agrees with a scan
// ---------------------------------------------------------------------------

/// Whether every file that the change set lists as unchanged stands in
/// the graph with the record that indexing it anew gives.
pub open spec fn unchanged_as_indexed(
    g: CodeGraph,
    cs: ChangeSet,
    sources: Seq<SourceFile>,
    trees: Seq<Option<TreeModel>>,
) -> bool {
    forall|p: Seq<char>| #[trigger]
        cs.unchanged.deep_view().contains(p) ==> file_map(g.files)[p] == records_of(
            sources,
            trees,
            any_cpp(sources),
        )[p]
}

/// An update leaves the files that a scan of the current sources gives:
/// where the recorded hashes are those of the graph, every source that
/// has a language is parsed, and the unchanged files stand in the graph
/// as indexing them anew would record them, the files after the update
/// are the records of the sources.
pub proof fn lemma_update_files(
    before: CodeGraph,
    after: CodeGraph,
    cs: ChangeSet,
    old_hashes: StrMap<String>,
    sources: Seq<SourceFile>,
    trees: Seq<Option<TreeModel>>,
    now: String,
)
    requires
        before.files.wf(),
        old_hashes.wf(),
        table_view(old_hashes) == hashes_of(before),
        all_parsed(sources, trees),
        is_changeset_to(cs, old_hashes, sources),
        is_update_of(after, before, cs, sources, trees, now),
        unchanged_as_indexed(before, cs, sources, trees),
    ensures
        file_map(after.files) == records_of(sources, trees, any_cpp(sources)),
{
    let records = records_of(sources, trees, any_cpp(sources));
    let current = source_hashes(sources, sources.len() as int);
    let new_hashes = choose|new_hashes: StrMap<String>|
        new_hashes.wf() && table_view(new_hashes) == current && #[trigger] is_changeset(
            cs,
            old_hashes,
            new_hashes,
        );
    let held = file_map(before.files);
    lemma_record_hashes(sources, trees, any_cpp(sources), sources.len() as int);
    assert forall|p: Seq<char>| #[trigger] records.dom().contains(p) <==> new_hashes.has(p) by {
        assert(table_view(new_hashes).dom().contains(p) <==> new_hashes.has(p));
    }
    assert forall|p: Seq<char>| #[trigger] held.dom().contains(p) <==> old_hashes.has(p) by {
        assert(table_view(old_hashes).dom().contains(p) <==> old_hashes.has(p));
        assert(hashes_of(before).dom().contains(p) <==> before.files.has(p));
    }
    let added = cs.added.deep_view();
    let modified = cs.modified.deep_view();
    let removed = cs.removed.deep_view();
    let unchanged = cs.unchanged.deep_view();
    if nothing_changed(cs) {
        assert(after == before);
        assert forall|p: Seq<char>| held.dom().contains(p) <==> records.dom().contains(p) by {
            if held.dom().contains(p) && !new_hashes.has(p) {
                assert(removed.contains(p));
            }
            if new_hashes.has(p) && !old_hashes.has(p) {
                assert(added.contains(p));
            }
        }
        assert forall|p: Seq<char>| held.dom().contains(p) implies held[p] == records[p] by {
            if old_hashes.value_of(p)@ != new_hashes.value_of(p)@ {
                assert(modified.contains(p));
            }
            assert(unchanged.contains(p));
        }
        assert(held =~= records);
    } else {
        let updated = choose|updated: StrMap<FileEntry>|
            updated.wf() && file_map(updated) == records.restrict(changed_paths(cs))
                && #[trigger] state_of(after) == merged(
                state_of(before),
                updated.keys(),
                file_models(updated),
                removed,
            );
        lemma_merged_files(state_of(before), updated, removed);
        let left = state_of(after).files;
        assert forall|p: Seq<char>| updated.has(p) <==> records.dom().contains(p) && (
        added.contains(p) || modified.contains(p)) by {
            assert(file_map(updated).dom().contains(p) <==> updated.has(p));
            assert(changed_paths(cs).contains(p) <==> added.contains(p) || modified.contains(p));
        }
        assert forall|p: Seq<char>| left.dom().contains(p) <==> records.dom().contains(p) by {
            if records.dom().contains(p) {
                assert(new_hashes.has(p));
                if !old_hashes.has(p) {
                    assert(added.contains(p));
                } else if old_hashes.value_of(p)@ != new_hashes.value_of(p)@ {
                    assert(modified.contains(p));
                } else {
                    assert(!removed.contains(p));
                    assert(held.dom().contains(p));
                }
            } else {
                assert(!updated.has(p));
                if held.dom().contains(p) {
                    assert(removed.contains(p));
                }
            }
        }
        assert forall|p: Seq<char>| left.dom().contains(p) implies left[p] == records[p] by {
            if updated.has(p) {
                assert(file_map(updated)[p] == records[p]);
            } else {
                assert(held.dom().contains(p) && !removed.contains(p));
                assert(new_hashes.has(p));
                assert(!added.contains(p));
                assert(!modified.contains(p));
                assert(unchanged.contains(p));
            }
        }
        assert(left =~= records);
    }
}

/// An update leads to the graph that a full scan of the current sources
/// gives, but for the time stamp. This holds where the graph met the invariants and
/// held the edges of its files before, the recorded hashes are those of
/// the graph, parsing gives the scan the trees it gave the update and a
/// tree for every source that has a language, and the unchanged files
/// stand in the graph as indexing them anew would record them.
pub proof fn law_update_matches_scan(
    before: CodeGraph,
    after: CodeGraph,
    full: CodeGraph,
    cs: ChangeSet,
    old_hashes: StrMap<String>,
    sources: Seq<SourceFile>,
    trees: Seq<Option<TreeModel>>,
    now: String,
)
    requires
        graph_invariants(before),
        edges_exact(before),
        after.files.wf(),
        after.modules.wf(),
        old_hashes.wf(),
        table_view(old_hashes) == hashes_of(before),
        all_parsed(sources, trees),
        is_changeset_to(cs, old_hashes, sources),
        is_update_of(after, before, cs, sources, trees, now),
        unchanged_as_indexed(before, cs, sources, trees),
        is_scan_of(full, sources, trees),
    ensures
        same_graph(after, full),
{
    lemma_update_files(before, after, cs, old_hashes, sources, trees, now);
    law_update_invariants(before, after, cs, sources, trees, now);
    law_scan_invariants(full, sources, trees);
    let entries = choose|entries: StrMap<FileEntry>|
        entries.wf() && file_map(entries) == records_of(sources, trees, any_cpp(sources))
            && #[trigger] is_graph_of(full, entries);
    lemma_graph_files(full, entries);
    law_files_determine_graph(after, full);
}

/// The records of the changed paths are the same for the trees that an
/// update parses and for the trees of all sources.
pub proof fn lemma_changed_records(sources: Seq<SourceFile>, cs: ChangeSet, project_has_cpp: bool)
    ensures
        records_of(sources, changed_trees(sources, cs, project_has_cpp), project_has_cpp).restrict(
            changed_paths(cs),
        ) == records_of(sources, parsed_trees(sources, project_has_cpp), project_has_cpp).restrict(
            changed_paths(cs),
        ),
{
    let few = changed_trees(sources, cs, project_has_cpp);
    let all = parsed_trees(sources, project_has_cpp);
    let a = records_of(sources, few, project_has_cpp);
    let b = records_of(sources, all, project_has_cpp);
    let n = sources.len() as int;
    let ra = a.restrict(changed_paths(cs));
    let rb = b.restrict(changed_paths(cs));
    assert forall|p: Seq<char>| #[trigger] changed_paths(cs).contains(p) implies (a.dom().contains(
        p,
    ) <==> b.dom().contains(p)) && (a.dom().contains(p) ==> a[p] == b[p]) by {
        lemma_record_at(sources, few, project_has_cpp, n, p);
        lemma_record_at(sources, all, project_has_cpp, n, p);
        if source_positions(sources, n).dom().contains(p) {
            lemma_source_positions(sources, n, p);
            let at = source_positions(sources, n)[p];
            assert(stands_changed(sources, cs, at));
            assert(few[at] == all[at]);
        }
    }
    assert forall|p: Seq<char>| ra.dom().contains(p) <==> rb.dom().contains(p) by {
        if ra.dom().contains(p) || rb.dom().contains(p) {
            assert(changed_paths(cs).contains(p));
        }
    }
    assert forall|p: Seq<char>| ra.dom().contains(p) implies ra[p] == rb[p] by {
        assert(changed_paths(cs).contains(p));
    }
    assert(ra =~= rb);
}

/// An update of a graph leads to the graph that a full scan of the
/// current sources gives, but for the time stamp. This holds where the
/// graph met the invariants and held the edges of its files before, the
/// recorded hashes are those of the graph, and the unchanged files stand
/// in the graph as indexing them anew would record them.
pub proof fn law_update_graph_matches_scan(
    before: CodeGraph,
    after: CodeGraph,
    full: CodeGraph,
    cs: ChangeSet,
    old_hashes: StrMap<String>,
    sources: Seq<SourceFile>,
    now: String,
)
    requires
        graph_invariants(before),
        edges_exact(before),
        after.files.wf(),
        after.modules.wf(),
        old_hashes.wf(),
        table_view(old_hashes) == hashes_of(before),
        is_changeset_to(cs, old_hashes, sources),
        is_update_of(
            after,
            before,
            cs,
            sources,
            changed_trees(sources, cs, any_cpp(sources)),
            now,
        ),
        unchanged_as_indexed(before, cs, sources, parsed_trees(sources, any_cpp(sources))),
        is_scan_of(full, sources, parsed_trees(sources, any_cpp(sources))),
    ensures
        same_graph(after, full),
{
    let cpp = any_cpp(sources);
    lemma_changed_records(sources, cs, cpp);
    law_sources_parse(sources, cpp);
    if !nothing_changed(cs) {
        let updated = choose|updated: StrMap<FileEntry>|
            updated.wf() && file_map(updated) == records_of(
                sources,
                changed_trees(sources, cs, cpp),
                cpp,
            ).restrict(changed_paths(cs)) && #[trigger] state_of(after) == merged(
                state_of(before),
                updated.keys(),
                file_models(updated),
                cs.removed.deep_view(),
            );
        assert(updated.wf() && file_map(updated) == records_of(
            sources,
            parsed_trees(sources, cpp),
            cpp,
        ).restrict(changed_paths(cs)) && state_of(after) == merged(
            state_of(before),
            updated.keys(),
            file_models(updated),
            cs.removed.deep_view(),
        ));
    }
    assert(is_update_of(after, before, cs, sources, parsed_trees(sources, cpp), now));
    law_update_matches_scan(
        before,
        after,
        full,
        cs,
        old_hashes,
        sources,
        parsed_trees(sources, cpp),
        now,
    );
}

} // verus!
