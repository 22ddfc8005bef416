//! Module-level dependency edges, resolved from the relative imports of
//! the files through a path-lookup table.

use crate::graph::{CodeGraph, FileEntry, FileEntryModel, ImportInfoModel, ModuleEntry};
use crate::ordered::{clone_strings, insert_unique, strictly_sorted};
use crate::path_utils::{
    posix_dirname_chars, posix_dirname_spec, posix_normalize_chars, posix_normalize_spec,
    strip_extension, strip_extension_spec,
};
use crate::str_map::StrMap;
use crate::summary::{file_models, same_identity};
use crate::text::{chars_of, push_chars, str_eq, string_of};
use vstd::prelude::*;

verus! {

// ---------------------------------------------------------------------------
// The path-lookup table
// ---------------------------------------------------------------------------

/// The table built from the first `n` files: every path maps to the
/// module of its file, and so does its extension-stripped form unless
/// that key is taken already.
pub open spec fn lookup_table(paths: Seq<Seq<char>>, entries: Seq<FileEntryModel>, n: int) -> Map<
    Seq<char>,
    Seq<char>,
>
    decreases n,
{
    if n <= 0 {
        Map::empty()
    } else {
        let t = lookup_table(paths, entries, n - 1).insert(paths[n - 1], entries[n - 1].module);
        let stem = strip_extension_spec(paths[n - 1]);
        if t.dom().contains(stem) {
            t
        } else {
            t.insert(stem, entries[n - 1].module)
        }
    }
}

/// A map of strings seen as a map of character sequences.
pub open spec fn table_view(table: StrMap<String>) -> Map<Seq<char>, Seq<char>> {
    Map::new(|k: Seq<char>| table.has(k), |k: Seq<char>| table.value_of(k)@)
}

/// Stores `value` under `key` in a table.
fn table_put(table: &mut StrMap<String>, key: String, value: String)
    ensures
        table_view(*final(table)) == table_view(*old(table)).insert(key@, value@),
{
    let ghost before = *table;
    table.insert(key, value);
    proof {
        let after = *table;
        assert forall|k: Seq<char>| table_view(after).dom().contains(k) <==> table_view(
            before,
        ).insert(key@, value@).dom().contains(k) by {
            assert(after.as_map().dom().contains(k) <==> after.has(k));
            assert(before.as_map().dom().contains(k) <==> before.has(k));
        }
        assert forall|k: Seq<char>| table_view(after).dom().contains(k) implies table_view(
            after,
        )[k] == table_view(before).insert(key@, value@)[k] by {
            assert(after.as_map().dom().contains(k));
            assert(after.as_map()[k] == after.value_of(k));
            if k != key@ {
                assert(before.as_map().dom().contains(k));
                assert(before.as_map()[k] == before.value_of(k));
            }
        }
        assert(table_view(after) =~= table_view(before).insert(key@, value@));
    }
}

/// Builds the path-lookup table of a file map.
pub fn build_path_lookup(files: &StrMap<FileEntry>) -> (table: StrMap<String>)
    ensures
        table_view(table) == lookup_table(
            files.keys(),
            file_models(*files),
            files.keys().len() as int,
        ),
{
    let mut table: StrMap<String> = StrMap::new();
    let n = files.len();
    let mut i: usize = 0;
    proof {
        assert(table_view(table) =~= Map::<Seq<char>, Seq<char>>::empty());
    }
    while i < n
        invariant
            i <= n,
            n == files.keys().len(),
            n == files.values().len(),
            table_view(table) == lookup_table(files.keys(), file_models(*files), i as int),
        decreases n - i,
    {
        let path = files.key_at(i);
        let module = &files.value_at(i).module;
        proof {
            assert(file_models(*files)[i as int].module == module@);
        }
        table_put(&mut table, path.clone(), module.clone());
        let stem = strip_extension(path.as_str());
        let ghost t1 = table_view(table);
        let known = table.contains_key(stem.as_str());
        proof {
            assert(known == t1.dom().contains(stem@));
        }
        if !known {
            table_put(&mut table, stem, module.clone());
        }
        i += 1;
    }
    table
}

// ---------------------------------------------------------------------------
// Resolving one import
// ---------------------------------------------------------------------------

/// The suffix tried when a resolved path names a directory.
pub open spec fn index_suffix() -> Seq<char> {
    seq!['/', 'i', 'n', 'd', 'e', 'x']
}

/// The module that a relative import leads to: the import source is
/// joined to the directory of the importing file and normalized; the
/// result is looked up as it is, then with `/index` appended. Sources
/// that do not begin with `.` lead nowhere.
pub open spec fn resolve_import_spec(
    table: Map<Seq<char>, Seq<char>>,
    importer: Seq<char>,
    source: Seq<char>,
) -> Option<Seq<char>> {
    if source.len() == 0 || source[0] != '.' {
        None
    } else {
        let resolved = posix_normalize_spec(posix_dirname_spec(importer) + seq!['/'] + source);
        if table.dom().contains(resolved) {
            Some(table[resolved])
        } else if table.dom().contains(resolved + index_suffix()) {
            Some(table[resolved + index_suffix()])
        } else {
            None
        }
    }
}

/// Looks a key up in a table and copies what it finds.
fn table_get(table: &StrMap<String>, key: &str) -> (r: Option<String>)
    ensures
        match r {
            Some(m) => table_view(*table).dom().contains(key@) && m@ == table_view(*table)[key@],
            None => !table_view(*table).dom().contains(key@),
        },
{
    match table.get(key) {
        Some(m) => Some(m.clone()),
        None => None,
    }
}

/// Resolves a relative import of the file at `importer_path` to the
/// module it leads to.
pub fn resolve_import_module(
    importer_path: &str,
    import_source: &str,
    path_lookup: &StrMap<String>,
) -> (r: Option<String>)
    ensures
        r.deep_view() == resolve_import_spec(
            table_view(*path_lookup),
            importer_path@,
            import_source@,
        ),
{
    let source = chars_of(import_source);
    if source.len() == 0 || source[0] != '.' {
        return None;
    }
    let importer = chars_of(importer_path);
    let mut joined = posix_dirname_chars(&importer);
    joined.push('/');
    push_chars(&mut joined, &source);
    proof {
        assert(joined@ =~= posix_dirname_spec(importer_path@) + seq!['/'] + import_source@);
    }
    let mut resolved = posix_normalize_chars(&joined);
    let key = string_of(&resolved);
    match table_get(path_lookup, key.as_str()) {
        Some(m) => Some(m),
        None => {
            let suffix: Vec<char> = vec!['/', 'i', 'n', 'd', 'e', 'x'];
            proof {
                assert(suffix@ =~= index_suffix());
            }
            push_chars(&mut resolved, &suffix);
            let index_key = string_of(&resolved);
            table_get(path_lookup, index_key.as_str())
        },
    }
}

// ---------------------------------------------------------------------------
// Edges
// ---------------------------------------------------------------------------

/// The edge that one import of a file of `module` gives: from `module` to
/// the module the import resolves to, unless the import is external,
/// resolves to nothing, or stays inside `module`.
pub open spec fn import_edges(
    table: Map<Seq<char>, Seq<char>>,
    path: Seq<char>,
    module: Seq<char>,
    imp: ImportInfoModel,
) -> Seq<(Seq<char>, Seq<char>)> {
    if imp.is_external {
        Seq::empty()
    } else {
        match resolve_import_spec(table, path, imp.source) {
            Some(target) => if target != module {
                seq![(module, target)]
            } else {
                Seq::empty()
            },
            None => Seq::empty(),
        }
    }
}

/// The edges that the first `n` imports of a file give.
pub open spec fn file_edges(
    table: Map<Seq<char>, Seq<char>>,
    path: Seq<char>,
    entry: FileEntryModel,
    n: int,
) -> Seq<(Seq<char>, Seq<char>)>
    decreases n,
{
    if n <= 0 {
        Seq::empty()
    } else {
        file_edges(table, path, entry, n - 1) + import_edges(
            table,
            path,
            entry.module,
            entry.imports[n - 1],
        )
    }
}

/// The edges that the first `n` files give.
pub open spec fn edges_upto(
    table: Map<Seq<char>, Seq<char>>,
    paths: Seq<Seq<char>>,
    entries: Seq<FileEntryModel>,
    n: int,
) -> Seq<(Seq<char>, Seq<char>)>
    decreases n,
{
    if n <= 0 {
        Seq::empty()
    } else {
        edges_upto(table, paths, entries, n - 1) + file_edges(
            table,
            paths[n - 1],
            entries[n - 1],
            entries[n - 1].imports.len() as int,
        )
    }
}

/// Every edge between modules that the files of a file map give, in file
/// order, with repetitions.
pub open spec fn graph_edges(paths: Seq<Seq<char>>, entries: Seq<FileEntryModel>) -> Seq<
    (Seq<char>, Seq<char>),
> {
    edges_upto(
        lookup_table(paths, entries, paths.len() as int),
        paths,
        entries,
        paths.len() as int,
    )
}

/// Two parallel vectors of strings seen as a sequence of pairs.
pub open spec fn pairs_view(from: Seq<String>, to: Seq<String>) -> Seq<(Seq<char>, Seq<char>)> {
    Seq::new(from.len(), |i: int| (from[i]@, to[i]@))
}

/// Appends the edges of one file to the two vectors.
fn push_file_edges(
    from: &mut Vec<String>,
    to: &mut Vec<String>,
    table: &StrMap<String>,
    path: &str,
    entry: &FileEntry,
)
    requires
        old(from).len() == old(to).len(),
    ensures
        final(from).len() == final(to).len(),
        pairs_view(final(from)@, final(to)@) == pairs_view(old(from)@, old(to)@) + file_edges(
            table_view(*table),
            path@,
            entry.deep_view(),
            entry.imports.len() as int,
        ),
{
    let ghost base = pairs_view(from@, to@);
    let ghost tv = table_view(*table);
    let ghost model = entry.deep_view();
    let mut j: usize = 0;
    proof {
        assert(base + file_edges(tv, path@, model, 0) =~= base);
    }
    while j < entry.imports.len()
        invariant
            j <= entry.imports.len(),
            from.len() == to.len(),
            model == entry.deep_view(),
            tv == table_view(*table),
            pairs_view(from@, to@) == base + file_edges(tv, path@, model, j as int),
        decreases entry.imports.len() - j,
    {
        let imp = &entry.imports[j];
        let ghost cur = pairs_view(from@, to@);
        proof {
            assert(model.imports[j as int] == imp.deep_view());
        }
        if !imp.is_external {
            match resolve_import_module(path, imp.source.as_str(), table) {
                Some(target) => {
                    if !str_eq(target.as_str(), entry.module.as_str()) {
                        from.push(entry.module.clone());
                        to.push(target);
                        proof {
                            assert(pairs_view(from@, to@) =~= cur + seq![(model.module, target@)]);
                        }
                    }
                },
                None => {},
            }
        }
        proof {
            let step = import_edges(tv, path@, model.module, model.imports[j as int]);
            assert(pairs_view(from@, to@) =~= cur + step);
            assert(base + file_edges(tv, path@, model, j + 1) =~= (base + file_edges(
                tv,
                path@,
                model,
                j as int,
            )) + step);
        }
        j += 1;
    }
}

/// Collects every edge that the files give.
fn collect_edges(files: &StrMap<FileEntry>, table: &StrMap<String>) -> (r: (
    Vec<String>,
    Vec<String>,
))
    ensures
        r.0.len() == r.1.len(),
        pairs_view(r.0@, r.1@) == edges_upto(
            table_view(*table),
            files.keys(),
            file_models(*files),
            files.keys().len() as int,
        ),
{
    let mut from: Vec<String> = Vec::new();
    let mut to: Vec<String> = Vec::new();
    let n = files.len();
    let ghost tv = table_view(*table);
    let mut i: usize = 0;
    proof {
        assert(pairs_view(from@, to@) =~= Seq::<(Seq<char>, Seq<char>)>::empty());
    }
    while i < n
        invariant
            i <= n,
            n == files.keys().len(),
            n == files.values().len(),
            from.len() == to.len(),
            tv == table_view(*table),
            pairs_view(from@, to@) == edges_upto(tv, files.keys(), file_models(*files), i as int),
        decreases n - i,
    {
        let entry = files.value_at(i);
        proof {
            assert(file_models(*files)[i as int] == entry.deep_view());
            assert(file_models(*files)[i as int].imports.len() == entry.imports.len());
        }
        push_file_edges(&mut from, &mut to, table, files.key_at(i).as_str(), entry);
        i += 1;
    }
    (from, to)
}

/// The distinct partners of `name` in an edge list, ascending: with
/// `keys` the sources and `vals` the targets these are the targets of the
/// edges that leave `name`.
fn partners(keys: &Vec<String>, vals: &Vec<String>, name: &str) -> (out: Vec<String>)
    requires
        keys.len() == vals.len(),
    ensures
        strictly_sorted(out.deep_view()),
        forall|t: Seq<char>| #[trigger]
            out.deep_view().contains(t) <==> pairs_view(keys@, vals@).contains((name@, t)),
{
    let mut out: Vec<String> = Vec::new();
    let ghost pairs = pairs_view(keys@, vals@);
    let mut i: usize = 0;
    proof {
        assert(out.deep_view() =~= Seq::<Seq<char>>::empty());
    }
    while i < keys.len()
        invariant
            i <= keys.len(),
            keys.len() == vals.len(),
            pairs == pairs_view(keys@, vals@),
            strictly_sorted(out.deep_view()),
            forall|t: Seq<char>| #[trigger]
                out.deep_view().contains(t) <==> pairs.take(i as int).contains((name@, t)),
        decreases keys.len() - i,
    {
        let ghost before = out.deep_view();
        let ghost hit = keys@[i as int]@ == name@;
        if str_eq(keys[i].as_str(), name) {
            insert_unique(&mut out, vals[i].clone());
        }
        proof {
            let pre = pairs.take(i as int);
            let next = pairs.take(i + 1);
            assert(next =~= pre.push(pairs[i as int]));
            assert(pairs[i as int] == (keys@[i as int]@, vals@[i as int]@));
            assert forall|t: Seq<char>| #[trigger]
                out.deep_view().contains(t) <==> next.contains((name@, t)) by {
                assert(before.contains(t) <==> pre.contains((name@, t)));
                if pre.contains((name@, t)) {
                    let k = choose|k: int| 0 <= k < pre.len() && pre[k] == (name@, t);
                    assert(next[k] == (name@, t));
                }
                if next.contains((name@, t)) {
                    let k = choose|k: int| 0 <= k < next.len() && next[k] == (name@, t);
                    if k < i {
                        assert(pre[k] == (name@, t));
                    }
                }
                if hit && t == vals@[i as int]@ {
                    assert(next[i as int] == (name@, t));
                }
            }
        }
        i += 1;
    }
    proof {
        assert(pairs.take(keys@.len() as int) =~= pairs);
    }
    out
}

/// The edge lists of a module agree with the edge list `edges`: both are
/// strictly ascending, `depends_on` holds the targets of the edges that
/// leave `name`, and `depended_by` the sources of those that reach it.
pub open spec fn edges_match(
    module: ModuleEntry,
    name: Seq<char>,
    edges: Seq<(Seq<char>, Seq<char>)>,
) -> bool {
    &&& strictly_sorted(module.depends_on.deep_view())
    &&& strictly_sorted(module.depended_by.deep_view())
    &&& forall|t: Seq<char>| #[trigger]
        module.depends_on.deep_view().contains(t) <==> edges.contains((name, t))
    &&& forall|s: Seq<char>| #[trigger]
        module.depended_by.deep_view().contains(s) <==> edges.contains((s, name))
}

/// The edge lists of every module of the graph are those that its files
/// give.
pub open spec fn edges_exact(g: CodeGraph) -> bool {
    forall|k: int|
        0 <= k < g.modules.keys().len() ==> edges_match(
            #[trigger] g.modules.values()[k],
            g.modules.keys()[k],
            graph_edges(g.files.keys(), file_models(g.files)),
        )
}

/// The file lists of the modules, by module name.
pub open spec fn module_lists(modules: StrMap<ModuleEntry>) -> Map<Seq<char>, Seq<Seq<char>>> {
    Map::new(|k: Seq<char>| modules.has(k), |k: Seq<char>| modules.value_of(k).files.deep_view())
}

/// Swapping both components of every pair.
proof fn lemma_pairs_swapped(
    from: Seq<String>,
    to: Seq<String>,
    a: Seq<char>,
    b: Seq<char>,
)
    requires
        from.len() == to.len(),
    ensures
        pairs_view(to, from).contains((b, a)) <==> pairs_view(from, to).contains((a, b)),
{
    let p = pairs_view(from, to);
    let q = pairs_view(to, from);
    if p.contains((a, b)) {
        let k = choose|k: int| 0 <= k < p.len() && p[k] == (a, b);
        assert(q[k] == (b, a));
    }
    if q.contains((b, a)) {
        let k = choose|k: int| 0 <= k < q.len() && q[k] == (b, a);
        assert(p[k] == (a, b));
    }
}

/// Rebuilds the `depends_on` and `depended_by` lists of every module
/// from the imports of the files, and changes nothing else.
pub fn rebuild_dependencies(graph: &mut CodeGraph)
    ensures
        edges_exact(*final(graph)),
        same_identity(*final(graph), *old(graph)),
        final(graph).files == old(graph).files,
        final(graph).summary == old(graph).summary,
        final(graph).config == old(graph).config,
        final(graph).modules.keys() == old(graph).modules.keys(),
        module_lists(final(graph).modules) == module_lists(old(graph).modules),
{
    let table = build_path_lookup(&graph.files);
    let (from, to) = collect_edges(&graph.files, &table);
    let ghost edges = graph_edges(graph.files.keys(), file_models(graph.files));
    let ghost start = graph.modules;
    proof {
        assert(pairs_view(from@, to@) == edges);
    }
    let n = graph.modules.len();
    let mut k: usize = 0;
    while k < n
        invariant
            k <= n,
            n == start.keys().len(),
            from.len() == to.len(),
            pairs_view(from@, to@) == edges,
            graph.modules.wf(),
            start.wf(),
            graph.modules.keys() == start.keys(),
            graph.modules.values().len() == n,
            graph.files == old(graph).files,
            graph.summary == old(graph).summary,
            graph.config == old(graph).config,
            same_identity(*graph, *old(graph)),
            forall|j: int|
                0 <= j < n ==> (#[trigger] graph.modules.values()[j]).files.deep_view()
                    == start.values()[j].files.deep_view(),
            forall|j: int|
                0 <= j < k ==> edges_match(
                    #[trigger] graph.modules.values()[j],
                    start.keys()[j],
                    edges,
                ),
        decreases n - k,
    {
        let name = graph.modules.key_at(k).clone();
        let depends_on = partners(&from, &to, name.as_str());
        let depended_by = partners(&to, &from, name.as_str());
        let files = clone_strings(&graph.modules.value_at(k).files);
        let ghost prev = graph.modules;
        let entry = ModuleEntry { files, depends_on, depended_by };
        proof {
            assert forall|s: Seq<char>| #[trigger]
                entry.depended_by.deep_view().contains(s) <==> edges.contains((s, name@)) by {
                lemma_pairs_swapped(from@, to@, s, name@);
            }
            assert(edges_match(entry, name@, edges));
        }
        graph.modules.replace_at(k, entry);
        proof {
            assert forall|j: int| 0 <= j < n implies (#[trigger] graph.modules.values()[
                j
            ]).files.deep_view() == start.values()[j].files.deep_view() by {
                if j != k {
                    assert(graph.modules.values()[j] == prev.values()[j]);
                }
            }
            assert forall|j: int| 0 <= j < k + 1 implies edges_match(
                #[trigger] graph.modules.values()[j],
                start.keys()[j],
                edges,
            ) by {
                if j != k {
                    assert(graph.modules.values()[j] == prev.values()[j]);
                }
            }
        }
        k += 1;
    }
    proof {
        let done = graph.modules;
        assert forall|m: Seq<char>| module_lists(done).dom().contains(m) implies module_lists(
            done,
        )[m] == module_lists(start)[m] by {
            let j = done.keys().index_of(m);
            assert(0 <= j < done.keys().len() && done.keys()[j] == m);
            done.lemma_position(j);
            start.lemma_position(j);
            assert(done.values()[j].files.deep_view() == start.values()[j].files.deep_view());
        }
        assert(module_lists(done) =~= module_lists(start));
    }
}

} // verus!
