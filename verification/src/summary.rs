//! The aggregates of a graph, recomputed from its files.

use crate::graph::{CodeGraph, FileEntry, FileEntryModel};
use crate::str_map::StrMap;
use vstd::prelude::*;

verus! {

/// The models of the entries of a file map, in key order.
pub open spec fn file_models(files: StrMap<FileEntry>) -> Seq<FileEntryModel> {
    Seq::new(files.values().len(), |i: int| files.values()[i].deep_view())
}

/// `n` as a `u32`, or the largest `u32` where it does not fit.
pub open spec fn clamp32(n: nat) -> u32 {
    if n > u32::MAX {
        u32::MAX
    } else {
        n as u32
    }
}

/// The number of functions in the first `n` entries.
pub open spec fn sum_functions(entries: Seq<FileEntryModel>, n: int) -> nat
    decreases n,
{
    if n <= 0 {
        0
    } else {
        sum_functions(entries, n - 1) + entries[n - 1].functions.len()
    }
}

/// The number of classes in the first `n` entries.
pub open spec fn sum_classes(entries: Seq<FileEntryModel>, n: int) -> nat
    decreases n,
{
    if n <= 0 {
        0
    } else {
        sum_classes(entries, n - 1) + entries[n - 1].classes.len()
    }
}

/// How many of the first `n` entries carry the language tag `lang`.
pub open spec fn count_language(entries: Seq<FileEntryModel>, lang: Seq<char>, n: int) -> nat
    decreases n,
{
    if n <= 0 {
        0
    } else {
        count_language(entries, lang, n - 1) + if entries[n - 1].language == lang {
            1nat
        } else {
            0nat
        }
    }
}

/// The paths of the entry points among the first `n` files, in order.
pub open spec fn entry_points_of(
    paths: Seq<Seq<char>>,
    entries: Seq<FileEntryModel>,
    n: int,
) -> Seq<Seq<char>>
    decreases n,
{
    if n <= 0 {
        Seq::empty()
    } else if entries[n - 1].is_entry_point {
        entry_points_of(paths, entries, n - 1).push(paths[n - 1])
    } else {
        entry_points_of(paths, entries, n - 1)
    }
}

/// The summary and the language list agree with the files and modules of
/// the graph. Counts that exceed a `u32` stand at its maximum.
pub open spec fn summary_exact(g: CodeGraph) -> bool {
    let entries = file_models(g.files);
    let n = entries.len() as int;
    &&& g.summary.total_files == clamp32(entries.len())
    &&& g.summary.total_functions == clamp32(sum_functions(entries, n))
    &&& g.summary.total_classes == clamp32(sum_classes(entries, n))
    &&& g.summary.languages.wf()
    &&& forall|lang: Seq<char>| #[trigger]
        g.summary.languages.has(lang) <==> count_language(entries, lang, n) > 0
    &&& forall|lang: Seq<char>| #[trigger]
        g.summary.languages.has(lang) ==> g.summary.languages.value_of(lang) == clamp32(
            count_language(entries, lang, n),
        )
    &&& g.summary.modules.deep_view() == g.modules.keys()
    &&& g.summary.entry_points.deep_view() == entry_points_of(g.files.keys(), entries, n)
    &&& g.config.languages.deep_view() == g.summary.languages.keys()
}

/// The parts of a graph that no recomputation touches are the same in
/// `a` and `b`.
pub open spec fn same_identity(a: CodeGraph, b: CodeGraph) -> bool {
    &&& a.version == b.version
    &&& a.project == b.project
    &&& a.scanned_at == b.scanned_at
    &&& a.commit_hash == b.commit_hash
    &&& a.config.exclude_patterns == b.config.exclude_patterns
}

/// A length as a `u32`, clamped.
pub fn clamp_len(n: usize) -> (r: u32)
    ensures
        r == clamp32(n as nat),
{
    if n > 0xffff_ffff {
        0xffff_ffff
    } else {
        n as u32
    }
}

/// Counts one more file of language `lang`.
fn bump(languages: &mut StrMap<u32>, lang: &str)
    ensures
        final(languages).wf(),
        forall|l: Seq<char>| #[trigger]
            final(languages).has(l) <==> (old(languages).has(l) || l == lang@),
        forall|l: Seq<char>|
            l != lang@ && old(languages).has(l) ==> #[trigger] final(languages).value_of(l) == old(
                languages,
            ).value_of(l),
        final(languages).value_of(lang@) == if old(languages).has(lang@) {
            if old(languages).value_of(lang@) == u32::MAX {
                u32::MAX
            } else {
                (old(languages).value_of(lang@) + 1) as u32
            }
        } else {
            1u32
        },
{
    let ghost before = *languages;
    let next: u32 = match languages.get(lang) {
        Some(c) => c.saturating_add(1),
        None => 1,
    };
    languages.insert(lang.to_owned(), next);
    proof {
        let after = *languages;
        assert forall|l: Seq<char>| #[trigger] after.has(l) <==> (before.has(l) || l == lang@) by {
            assert(after.as_map().dom().contains(l) <==> after.has(l));
            assert(before.as_map().dom().contains(l) <==> before.has(l));
        }
        assert forall|l: Seq<char>| l != lang@ && before.has(l) implies #[trigger] after.value_of(
            l,
        ) == before.value_of(l) by {
            assert(before.as_map().dom().contains(l));
            assert(after.as_map()[l] == before.as_map()[l]);
        }
        assert(after.as_map().dom().contains(lang@));
        assert(after.as_map()[lang@] == next);
        assert(before.as_map().dom().contains(lang@) <==> before.has(lang@));
        if before.has(lang@) {
            assert(before.as_map()[lang@] == before.value_of(lang@));
        }
    }
}

/// Recomputes the summary and the language list from the files and the
/// module keys of the graph, and changes nothing else.
pub fn recalculate_summary(graph: &mut CodeGraph)
    ensures
        summary_exact(*final(graph)),
        same_identity(*final(graph), *old(graph)),
        final(graph).files == old(graph).files,
        final(graph).modules == old(graph).modules,
{
    let n = graph.files.len();
    let ghost paths = graph.files.keys();
    let ghost entries = file_models(graph.files);
    let mut total_functions: u32 = 0;
    let mut total_classes: u32 = 0;
    let mut languages: StrMap<u32> = StrMap::new();
    let mut entry_points: Vec<String> = Vec::new();
    let mut i: usize = 0;
    proof {
        assert(entry_points.deep_view() =~= Seq::<Seq<char>>::empty());
    }
    while i < n
        invariant
            i <= n,
            n == graph.files.keys().len(),
            n == graph.files.values().len(),
            paths == graph.files.keys(),
            entries == file_models(graph.files),
            *graph == *old(graph),
            total_functions == clamp32(sum_functions(entries, i as int)),
            total_classes == clamp32(sum_classes(entries, i as int)),
            languages.wf(),
            forall|lang: Seq<char>| #[trigger]
                languages.has(lang) <==> count_language(entries, lang, i as int) > 0,
            forall|lang: Seq<char>| #[trigger]
                languages.has(lang) ==> languages.value_of(lang) == clamp32(
                    count_language(entries, lang, i as int),
                ),
            entry_points.deep_view() == entry_points_of(paths, entries, i as int),
        decreases n - i,
    {
        let file = graph.files.value_at(i);
        let ghost before = languages;
        proof {
            assert(entries[i as int] == file.deep_view());
            assert(entries[i as int].functions.len() == file.functions.len());
            assert(entries[i as int].classes.len() == file.classes.len());
        }
        total_functions = total_functions.saturating_add(clamp_len(file.functions.len()));
        total_classes = total_classes.saturating_add(clamp_len(file.classes.len()));
        bump(&mut languages, file.language.as_str());
        if file.is_entry_point {
            let ghost ep = entry_points.deep_view();
            let key = graph.files.key_at(i).clone();
            entry_points.push(key);
            proof {
                assert(entry_points.deep_view() =~= ep.push(paths[i as int]));
            }
        }
        proof {
            let tag = entries[i as int].language;
            assert forall|lang: Seq<char>| #[trigger]
                languages.has(lang) <==> count_language(entries, lang, i + 1) > 0 by {
                assert(before.has(lang) <==> count_language(entries, lang, i as int) > 0);
            }
            assert forall|lang: Seq<char>| #[trigger] languages.has(lang) implies languages.value_of(
                lang,
            ) == clamp32(count_language(entries, lang, i + 1)) by {
                assert(before.has(lang) <==> count_language(entries, lang, i as int) > 0);
                if before.has(lang) {
                    assert(before.value_of(lang) == clamp32(
                        count_language(entries, lang, i as int),
                    ));
                }
            }
        }
        i += 1;
    }
    let module_list = graph.modules.key_list();
    let language_list = languages.key_list();
    graph.summary.total_files = clamp_len(n);
    graph.summary.total_functions = total_functions;
    graph.summary.total_classes = total_classes;
    graph.summary.languages = languages;
    graph.summary.modules = module_list;
    graph.summary.entry_points = entry_points;
    graph.config.languages = language_list;
}

} // verus!
