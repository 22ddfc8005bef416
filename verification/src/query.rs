//! Read-only queries over a graph: symbols by name, modules, and their
//! dependency lists.

use crate::graph::{decimal, decimal_digits, CodeGraph, FileEntry, FileEntryModel, ImportInfoModel};
use crate::ordered::{clone_strings, contains_string, sort_spec, sort_strings};
use crate::summary::file_models;
use crate::text::{
    chars_of, contains_seq, drop_ws, join, join_strings, lex_le, lex_lt, owned, push_chars,
    push_str, str_contains, str_eq, str_lt, string_of, trim_end,
};
use vstd::prelude::*;

verus! {

/// The first and last line of a symbol.
#[derive(Debug, Clone, Copy, PartialEq, Eq, Structural)]
pub struct LineRange {
    pub start: u32,
    pub end: u32,
}

/// One hit of a symbol query.
#[derive(Debug)]
pub struct SymbolResult {
    /// `function`, `class` or `type`.
    pub kind: String,
    pub name: String,
    pub signature: Option<String>,
    pub file: String,
    pub module: String,
    pub lines: LineRange,
    /// The other symbols that the file of the hit imports.
    pub file_imports: Vec<String>,
    /// The other files that import a symbol of this name, as
    /// `module:file`.
    pub imported_by: Vec<String>,
}

/// The model of a `SymbolResult`.
pub struct SymbolModel {
    pub kind: Seq<char>,
    pub name: Seq<char>,
    pub signature: Option<Seq<char>>,
    pub file: Seq<char>,
    pub module: Seq<char>,
    pub lines: LineRange,
    pub file_imports: Seq<Seq<char>>,
    pub imported_by: Seq<Seq<char>>,
}

impl DeepView for SymbolResult {
    type V = SymbolModel;

    open spec fn deep_view(&self) -> SymbolModel {
        SymbolModel {
            kind: self.kind@,
            name: self.name@,
            signature: self.signature.deep_view(),
            file: self.file@,
            module: self.module@,
            lines: self.lines,
            file_imports: self.file_imports.deep_view(),
            imported_by: self.imported_by.deep_view(),
        }
    }
}

/// What a module query returns.
#[derive(Debug)]
pub struct ModuleResult {
    pub name: String,
    pub files: Vec<String>,
    pub depends_on: Vec<String>,
    pub depended_by: Vec<String>,
}

/// The options of a symbol query.
#[derive(Debug)]
pub struct QueryOptions {
    /// The only kind of symbol to look for: `function`, `class` or
    /// `type`; all kinds where there is none.
    pub type_filter: Option<String>,
}

impl Default for QueryOptions {
    fn default() -> (o: Self)
        ensures
            o.type_filter.is_none(),
    {
        QueryOptions { type_filter: None }
    }
}

// ---------------------------------------------------------------------------
// Helpers
// ---------------------------------------------------------------------------

/// Whether a symbol name matches a query: it equals the query or holds
/// it.
pub open spec fn matches_symbol_spec(name: Seq<char>, query: Seq<char>) -> bool {
    name == query || contains_seq(name, query)
}

/// Whether a symbol name matches a query.
pub fn matches_symbol(name: &str, query: &str) -> (r: bool)
    ensures
        r == matches_symbol_spec(name@, query@),
{
    str_eq(name, query) || str_contains(name, query)
}

/// `symbols` without those equal to `own`.
pub open spec fn others(symbols: Seq<Seq<char>>, own: Seq<char>, n: int) -> Seq<Seq<char>>
    decreases n,
{
    if n <= 0 {
        Seq::empty()
    } else if symbols[n - 1] != own {
        others(symbols, own, n - 1).push(symbols[n - 1])
    } else {
        others(symbols, own, n - 1)
    }
}

/// The symbols that the first `n` imports bring in, without those named
/// `own`.
pub open spec fn file_imports_upto(imports: Seq<ImportInfoModel>, own: Seq<char>, n: int) -> Seq<
    Seq<char>,
>
    decreases n,
{
    if n <= 0 {
        Seq::empty()
    } else {
        file_imports_upto(imports, own, n - 1) + others(
            imports[n - 1].symbols,
            own,
            imports[n - 1].symbols.len() as int,
        )
    }
}

/// The symbols that a file imports, without those named `own`.
pub open spec fn file_imports_spec(file: FileEntryModel, own: Seq<char>) -> Seq<Seq<char>> {
    file_imports_upto(file.imports, own, file.imports.len() as int)
}

/// The symbols that a file imports, without those named `self_name`.
pub fn collect_file_imports(file_data: &FileEntry, self_name: &str) -> (out: Vec<String>)
    ensures
        out.deep_view() == file_imports_spec(file_data.deep_view(), self_name@),
{
    let mut out: Vec<String> = Vec::new();
    let ghost imports = file_data.deep_view().imports;
    let mut i: usize = 0;
    proof {
        assert(out.deep_view() =~= Seq::<Seq<char>>::empty());
    }
    while i < file_data.imports.len()
        invariant
            i <= file_data.imports.len(),
            imports == file_data.imports.deep_view(),
            out.deep_view() == file_imports_upto(imports, self_name@, i as int),
        decreases file_data.imports.len() - i,
    {
        let symbols = &file_data.imports[i].symbols;
        let ghost base = out.deep_view();
        let ghost syms = symbols.deep_view();
        let mut j: usize = 0;
        proof {
            assert(imports[i as int].symbols == syms);
            assert(out.deep_view() =~= base + others(syms, self_name@, 0));
        }
        while j < symbols.len()
            invariant
                j <= symbols.len(),
                syms == symbols.deep_view(),
                out.deep_view() == base + others(syms, self_name@, j as int),
            decreases symbols.len() - j,
        {
            let ghost before = out.deep_view();
            proof {
                assert(syms[j as int] == symbols@[j as int]@);
            }
            if !str_eq(symbols[j].as_str(), self_name) {
                out.push(symbols[j].clone());
                proof {
                    assert(out.deep_view() =~= before.push(syms[j as int]));
                    assert(out.deep_view() =~= base + others(syms, self_name@, j + 1));
                }
            }
            j += 1;
        }
        i += 1;
    }
    out
}

/// Whether one of the first `n` imports brings in `symbol`.
pub open spec fn imports_symbol(imports: Seq<ImportInfoModel>, symbol: Seq<char>, n: int) -> bool
    decreases n,
{
    if n <= 0 {
        false
    } else {
        imports_symbol(imports, symbol, n - 1) || imports[n - 1].symbols.contains(symbol)
    }
}

/// What holds of a prefix holds of every longer one.
proof fn lemma_imports_symbol_grows(
    imports: Seq<ImportInfoModel>,
    symbol: Seq<char>,
    a: int,
    b: int,
)
    requires
        a <= b,
        imports_symbol(imports, symbol, a),
    ensures
        imports_symbol(imports, symbol, b),
    decreases b - a,
{
    if a < b {
        lemma_imports_symbol_grows(imports, symbol, a, b - 1);
    }
}

/// Whether a file imports `symbol`.
fn file_imports_symbol(file: &FileEntry, symbol: &str) -> (r: bool)
    ensures
        r == imports_symbol(
            file.deep_view().imports,
            symbol@,
            file.deep_view().imports.len() as int,
        ),
{
    let ghost imports = file.deep_view().imports;
    let mut i: usize = 0;
    while i < file.imports.len()
        invariant
            i <= file.imports.len(),
            imports == file.imports.deep_view(),
            !imports_symbol(imports, symbol@, i as int),
        decreases file.imports.len() - i,
    {
        proof {
            assert(imports[i as int].symbols == file.imports@[i as int].symbols.deep_view());
        }
        if contains_string(&file.imports[i].symbols, symbol) {
            proof {
                lemma_imports_symbol_grows(
                    imports,
                    symbol@,
                    i + 1,
                    file.imports@.len() as int,
                );
            }
            return true;
        }
        i += 1;
    }
    false
}

/// The label of a file as a caller: its module, a colon, its path.
pub open spec fn caller_label(module: Seq<char>, path: Seq<char>) -> Seq<char> {
    module + ":"@ + path
}

/// The labels of those of the first `n` files, other than `source`,
/// that import `symbol`.
pub open spec fn caller_labels(
    paths: Seq<Seq<char>>,
    entries: Seq<FileEntryModel>,
    source: Seq<char>,
    symbol: Seq<char>,
    n: int,
) -> Seq<Seq<char>>
    decreases n,
{
    if n <= 0 {
        Seq::empty()
    } else if paths[n - 1] != source && imports_symbol(
        entries[n - 1].imports,
        symbol,
        entries[n - 1].imports.len() as int,
    ) {
        caller_labels(paths, entries, source, symbol, n - 1).push(
            caller_label(entries[n - 1].module, paths[n - 1]),
        )
    } else {
        caller_labels(paths, entries, source, symbol, n - 1)
    }
}

/// The files, other than `source`, that import `symbol`, as labels in
/// ascending order.
pub open spec fn callers_spec(g: CodeGraph, source: Seq<char>, symbol: Seq<char>) -> Seq<
    Seq<char>,
> {
    sort_spec(
        caller_labels(
            g.files.keys(),
            file_models(g.files),
            source,
            symbol,
            g.files.keys().len() as int,
        ),
    )
}

/// The files, other than `source_file`, that import a symbol named
/// `symbol_name`, as `module:file` in ascending order.
pub fn find_callers(graph: &CodeGraph, source_file: &str, symbol_name: &str) -> (out: Vec<String>)
    ensures
        out.deep_view() == callers_spec(*graph, source_file@, symbol_name@),
{
    let mut callers: Vec<String> = Vec::new();
    let n = graph.files.len();
    let ghost paths = graph.files.keys();
    let ghost entries = file_models(graph.files);
    let mut i: usize = 0;
    proof {
        assert(callers.deep_view() =~= Seq::<Seq<char>>::empty());
    }
    while i < n
        invariant
            i <= n,
            n == graph.files.keys().len(),
            n == graph.files.values().len(),
            paths == graph.files.keys(),
            entries == file_models(graph.files),
            callers.deep_view() == caller_labels(
                paths,
                entries,
                source_file@,
                symbol_name@,
                i as int,
            ),
        decreases n - i,
    {
        let path = graph.files.key_at(i);
        let file = graph.files.value_at(i);
        let ghost before = callers.deep_view();
        proof {
            assert(entries[i as int] == file.deep_view());
        }
        if !str_eq(path.as_str(), source_file) && file_imports_symbol(file, symbol_name) {
            let mut label = chars_of(file.module.as_str());
            push_str(&mut label, ":");
            push_str(&mut label, path.as_str());
            callers.push(string_of(&label));
            proof {
                assert(callers.deep_view() =~= before.push(caller_label(file.module@, path@)));
            }
        }
        i += 1;
    }
    sort_strings(&callers)
}

// ---------------------------------------------------------------------------
// Symbol queries
// ---------------------------------------------------------------------------

/// Whether a query with filter `filter` looks for symbols of kind
/// `kind`.
pub open spec fn wants(filter: Option<Seq<char>>, kind: Seq<char>) -> bool {
    match filter {
        Some(f) => f == kind,
        None => true,
    }
}

/// The hits among the first `n` functions of the file at position `i`.
pub open spec fn function_hits(g: CodeGraph, i: int, query: Seq<char>, n: int) -> Seq<SymbolModel>
    decreases n,
{
    let file = file_models(g.files)[i];
    if n <= 0 {
        Seq::empty()
    } else if matches_symbol_spec(file.functions[n - 1].name, query) {
        function_hits(g, i, query, n - 1).push(
            SymbolModel {
                kind: "function"@,
                name: file.functions[n - 1].name,
                signature: Some(file.functions[n - 1].signature),
                file: g.files.keys()[i],
                module: file.module,
                lines: LineRange {
                    start: file.functions[n - 1].start_line,
                    end: file.functions[n - 1].end_line,
                },
                file_imports: file_imports_spec(file, file.functions[n - 1].name),
                imported_by: callers_spec(g, g.files.keys()[i], file.functions[n - 1].name),
            },
        )
    } else {
        function_hits(g, i, query, n - 1)
    }
}

/// The hits among the first `n` classes of the file at position `i`.
pub open spec fn class_hits(g: CodeGraph, i: int, query: Seq<char>, n: int) -> Seq<SymbolModel>
    decreases n,
{
    let file = file_models(g.files)[i];
    if n <= 0 {
        Seq::empty()
    } else if matches_symbol_spec(file.classes[n - 1].name, query) {
        class_hits(g, i, query, n - 1).push(
            SymbolModel {
                kind: "class"@,
                name: file.classes[n - 1].name,
                signature: None,
                file: g.files.keys()[i],
                module: file.module,
                lines: LineRange {
                    start: file.classes[n - 1].start_line,
                    end: file.classes[n - 1].end_line,
                },
                file_imports: Seq::empty(),
                imported_by: callers_spec(g, g.files.keys()[i], file.classes[n - 1].name),
            },
        )
    } else {
        class_hits(g, i, query, n - 1)
    }
}

/// The hits among the first `n` types of the file at position `i`.
pub open spec fn type_hits(g: CodeGraph, i: int, query: Seq<char>, n: int) -> Seq<SymbolModel>
    decreases n,
{
    let file = file_models(g.files)[i];
    if n <= 0 {
        Seq::empty()
    } else if matches_symbol_spec(file.types[n - 1].name, query) {
        type_hits(g, i, query, n - 1).push(
            SymbolModel {
                kind: "type"@,
                name: file.types[n - 1].name,
                signature: None,
                file: g.files.keys()[i],
                module: file.module,
                lines: LineRange {
                    start: file.types[n - 1].start_line,
                    end: file.types[n - 1].end_line,
                },
                file_imports: Seq::empty(),
                imported_by: callers_spec(g, g.files.keys()[i], file.types[n - 1].name),
            },
        )
    } else {
        type_hits(g, i, query, n - 1)
    }
}

/// The hits of the file at position `i`, unsorted: functions, then
/// classes, then types, each kind only if the filter wants it.
pub open spec fn file_hits(g: CodeGraph, i: int, query: Seq<char>, filter: Option<Seq<char>>) -> Seq<
    SymbolModel,
> {
    let file = file_models(g.files)[i];
    (if wants(filter, "function"@) {
        function_hits(g, i, query, file.functions.len() as int)
    } else {
        Seq::empty()
    }) + (if wants(filter, "class"@) {
        class_hits(g, i, query, file.classes.len() as int)
    } else {
        Seq::empty()
    }) + (if wants(filter, "type"@) {
        type_hits(g, i, query, file.types.len() as int)
    } else {
        Seq::empty()
    })
}

/// `s` with `h` put behind the last hit whose name is not above that of
/// `h`.
pub open spec fn insert_hit(s: Seq<SymbolModel>, h: SymbolModel) -> Seq<SymbolModel>
    decreases s.len(),
{
    if s.len() > 0 && lex_lt(h.name, s.last().name) {
        insert_hit(s.drop_last(), h).push(s.last())
    } else {
        s.push(h)
    }
}

/// The hits in ascending order of their names, hits of equal names in
/// the order in which they stand.
pub open spec fn sort_hits(s: Seq<SymbolModel>) -> Seq<SymbolModel>
    decreases s.len(),
{
    if s.len() == 0 {
        Seq::empty()
    } else {
        insert_hit(sort_hits(s.drop_last()), s.last())
    }
}

/// The hits of the first `n` files: file after file in ascending path
/// order, the hits of a file in ascending order of their names.
pub open spec fn query_upto(g: CodeGraph, query: Seq<char>, filter: Option<Seq<char>>, n: int) -> Seq<
    SymbolModel,
>
    decreases n,
{
    if n <= 0 {
        Seq::empty()
    } else {
        query_upto(g, query, filter, n - 1) + sort_hits(file_hits(g, n - 1, query, filter))
    }
}

/// The hits of a symbol query, sorted by file and name.
pub open spec fn query_symbol_spec(g: CodeGraph, query: Seq<char>, filter: Option<Seq<char>>) -> Seq<
    SymbolModel,
> {
    query_upto(g, query, filter, g.files.keys().len() as int)
}

/// Puts a hit at its place among the sorted hits.
fn place_hit(sorted_hits: &mut Vec<SymbolResult>, hit: SymbolResult)
    ensures
        final(sorted_hits).deep_view() == insert_hit(old(sorted_hits).deep_view(), hit.deep_view()),
{
    let ghost s = sorted_hits.deep_view();
    let ghost h = hit.deep_view();
    let mut at: usize = sorted_hits.len();
    proof {
        assert(s.take(at as int) =~= s);
        assert(s.skip(at as int) =~= Seq::<SymbolModel>::empty());
        assert(insert_hit(s.take(at as int), h) + s.skip(at as int) =~= insert_hit(s, h));
    }
    while at > 0 && str_lt(hit.name.as_str(), sorted_hits[at - 1].name.as_str())
        invariant
            at <= sorted_hits.len(),
            s == sorted_hits.deep_view(),
            h == hit.deep_view(),
            insert_hit(s, h) == insert_hit(s.take(at as int), h) + s.skip(at as int),
        decreases at,
    {
        proof {
            let t = s.take(at as int);
            assert(t.last() == s[at - 1]);
            assert(s[at - 1].name == sorted_hits@[at - 1].name@);
            assert(t.drop_last() =~= s.take(at - 1));
            assert(insert_hit(t, h) =~= insert_hit(s.take(at - 1), h).push(s[at - 1]));
            assert(insert_hit(s.take(at - 1), h).push(s[at - 1]) + s.skip(at as int)
                =~= insert_hit(s.take(at - 1), h) + s.skip(at - 1));
        }
        at -= 1;
    }
    proof {
        let t = s.take(at as int);
        if at > 0 {
            assert(t.last() == s[at - 1]);
            assert(s[at - 1].name == sorted_hits@[at - 1].name@);
        }
        assert(insert_hit(t, h) == t.push(h));
        assert(t.push(h) + s.skip(at as int) =~= s.insert(at as int, h));
    }
    sorted_hits.insert(at, hit);
    proof {
        assert(sorted_hits.deep_view() =~= s.insert(at as int, h));
    }
}

/// Whether the filter of the options wants symbols of kind `kind`.
fn wants_kind(opts: &QueryOptions, kind: &str) -> (r: bool)
    ensures
        r == wants(opts.type_filter.deep_view(), kind@),
{
    match &opts.type_filter {
        Some(f) => str_eq(f.as_str(), kind),
        None => true,
    }
}

/// The hits of the file at position `i`, unsorted.
fn hits_of_file(graph: &CodeGraph, i: usize, symbol_name: &str, opts: &QueryOptions) -> (out: Vec<
    SymbolResult,
>)
    requires
        i < graph.files.keys().len(),
        i < graph.files.values().len(),
    ensures
        out.deep_view() == file_hits(*graph, i as int, symbol_name@, opts.type_filter.deep_view()),
{
    let path = graph.files.key_at(i);
    let file = graph.files.value_at(i);
    let ghost model = file_models(graph.files)[i as int];
    let ghost filter = opts.type_filter.deep_view();
    let mut out: Vec<SymbolResult> = Vec::new();
    proof {
        assert(model == file.deep_view());
        assert(out.deep_view() =~= Seq::<SymbolModel>::empty());
    }
    if wants_kind(opts, "function") {
        let mut k: usize = 0;
        while k < file.functions.len()
            invariant
                k <= file.functions.len(),
                i < graph.files.keys().len(),
                path@ == graph.files.keys()[i as int],
                model == file_models(graph.files)[i as int],
                model == file.deep_view(),
                out.deep_view() == function_hits(*graph, i as int, symbol_name@, k as int),
            decreases file.functions.len() - k,
        {
            let f = &file.functions[k];
            let ghost before = out.deep_view();
            proof {
                assert(model.functions[k as int] == f.deep_view());
            }
            if matches_symbol(f.name.as_str(), symbol_name) {
                let hit = SymbolResult {
                    kind: owned("function"),
                    name: f.name.clone(),
                    signature: Some(f.signature.clone()),
                    file: path.clone(),
                    module: file.module.clone(),
                    lines: LineRange { start: f.start_line, end: f.end_line },
                    file_imports: collect_file_imports(file, f.name.as_str()),
                    imported_by: find_callers(graph, path.as_str(), f.name.as_str()),
                };
                out.push(hit);
                proof {
                    assert(out.deep_view() =~= before.push(hit.deep_view()));
                }
            }
            k += 1;
        }
    }
    let ghost after_functions = out.deep_view();
    if wants_kind(opts, "class") {
        let mut k: usize = 0;
        proof {
            assert(out.deep_view() =~= after_functions + class_hits(
                *graph,
                i as int,
                symbol_name@,
                0,
            ));
        }
        while k < file.classes.len()
            invariant
                k <= file.classes.len(),
                i < graph.files.keys().len(),
                path@ == graph.files.keys()[i as int],
                model == file_models(graph.files)[i as int],
                model == file.deep_view(),
                out.deep_view() == after_functions + class_hits(
                    *graph,
                    i as int,
                    symbol_name@,
                    k as int,
                ),
            decreases file.classes.len() - k,
        {
            let c = &file.classes[k];
            let ghost before = out.deep_view();
            proof {
                assert(model.classes[k as int] == c.deep_view());
            }
            if matches_symbol(c.name.as_str(), symbol_name) {
                let file_imports: Vec<String> = Vec::new();
                proof {
                    assert(file_imports.deep_view() =~= Seq::<Seq<char>>::empty());
                }
                let hit = SymbolResult {
                    kind: owned("class"),
                    name: c.name.clone(),
                    signature: None,
                    file: path.clone(),
                    module: file.module.clone(),
                    lines: LineRange { start: c.start_line, end: c.end_line },
                    file_imports,
                    imported_by: find_callers(graph, path.as_str(), c.name.as_str()),
                };
                out.push(hit);
                proof {
                    assert(out.deep_view() =~= before.push(hit.deep_view()));
                    assert(out.deep_view() =~= after_functions + class_hits(
                        *graph,
                        i as int,
                        symbol_name@,
                        k + 1,
                    ));
                }
            }
            k += 1;
        }
    } else {
        proof {
            assert(out.deep_view() =~= after_functions + Seq::<SymbolModel>::empty());
        }
    }
    let ghost after_classes = out.deep_view();
    if wants_kind(opts, "type") {
        let mut k: usize = 0;
        proof {
            assert(out.deep_view() =~= after_classes + type_hits(
                *graph,
                i as int,
                symbol_name@,
                0,
            ));
        }
        while k < file.types.len()
            invariant
                k <= file.types.len(),
                i < graph.files.keys().len(),
                path@ == graph.files.keys()[i as int],
                model == file_models(graph.files)[i as int],
                model == file.deep_view(),
                out.deep_view() == after_classes + type_hits(
                    *graph,
                    i as int,
                    symbol_name@,
                    k as int,
                ),
            decreases file.types.len() - k,
        {
            let t = &file.types[k];
            let ghost before = out.deep_view();
            proof {
                assert(model.types[k as int] == t.deep_view());
            }
            if matches_symbol(t.name.as_str(), symbol_name) {
                let file_imports: Vec<String> = Vec::new();
                proof {
                    assert(file_imports.deep_view() =~= Seq::<Seq<char>>::empty());
                }
                let hit = SymbolResult {
                    kind: owned("type"),
                    name: t.name.clone(),
                    signature: None,
                    file: path.clone(),
                    module: file.module.clone(),
                    lines: LineRange { start: t.start_line, end: t.end_line },
                    file_imports,
                    imported_by: find_callers(graph, path.as_str(), t.name.as_str()),
                };
                out.push(hit);
                proof {
                    assert(out.deep_view() =~= before.push(hit.deep_view()));
                    assert(out.deep_view() =~= after_classes + type_hits(
                        *graph,
                        i as int,
                        symbol_name@,
                        k + 1,
                    ));
                }
            }
            k += 1;
        }
    } else {
        proof {
            assert(out.deep_view() =~= after_classes + Seq::<SymbolModel>::empty());
        }
    }
    out
}

/// Moves the hits of `hits` into `results`, in ascending order of their
/// names.
fn append_sorted(results: &mut Vec<SymbolResult>, hits: Vec<SymbolResult>)
    ensures
        final(results).deep_view() == old(results).deep_view() + sort_hits(hits.deep_view()),
{
    let ghost base = results.deep_view();
    let ghost all = hits.deep_view();
    let mut hits = hits;
    let mut reversed: Vec<SymbolResult> = Vec::new();
    proof {
        assert(all.skip(all.len() as int) =~= Seq::<SymbolModel>::empty());
        assert(reversed.deep_view() =~= all.skip(hits@.len() as int).reverse());
    }
    while hits.len() > 0
        invariant
            hits.deep_view() == all.take(hits@.len() as int),
            hits@.len() <= all.len(),
            reversed.deep_view() == all.skip(hits@.len() as int).reverse(),
        decreases hits.len(),
    {
        let ghost n = hits@.len() as int;
        let ghost before = reversed.deep_view();
        proof {
            assert(hits.deep_view()[n - 1] == hits@[n - 1].deep_view());
            assert(all.take(n)[n - 1] == all[n - 1]);
        }
        let h = hits.pop().unwrap();
        reversed.push(h);
        proof {
            assert(h.deep_view() == all[n - 1]);
            assert(hits.deep_view() =~= all.take(n - 1));
            assert(reversed.deep_view() =~= before.push(all[n - 1]));
            assert(all.skip(n - 1).reverse() =~= all.skip(n).reverse().push(all[n - 1]));
        }
    }
    proof {
        assert(all.skip(0) =~= all);
    }
    let mut sorted_hits: Vec<SymbolResult> = Vec::new();
    let ghost total = all.len() as int;
    proof {
        assert(sorted_hits.deep_view() =~= sort_hits(all.take(0)));
    }
    while reversed.len() > 0
        invariant
            total == all.len(),
            reversed@.len() <= total,
            reversed.deep_view() == all.reverse().take(reversed@.len() as int),
            sorted_hits.deep_view() == sort_hits(all.take(total - reversed@.len())),
        decreases reversed.len(),
    {
        let ghost m = reversed@.len() as int;
        proof {
            assert(reversed.deep_view()[m - 1] == reversed@[m - 1].deep_view());
            assert(all.reverse().take(m)[m - 1] == all.reverse()[m - 1]);
        }
        let h = reversed.pop().unwrap();
        proof {
            assert(h.deep_view() == all.reverse()[m - 1]);
            assert(all.reverse()[m - 1] == all[total - m]);
            assert(reversed.deep_view() =~= all.reverse().take(m - 1));
            let next = all.take(total - m + 1);
            assert(next.drop_last() =~= all.take(total - m));
            assert(next.last() == all[total - m]);
        }
        place_hit(&mut sorted_hits, h);
    }
    proof {
        assert(all.take(total) =~= all);
    }
    results.append(&mut sorted_hits);
    proof {
        assert(results.deep_view() =~= base + sort_hits(all));
    }
}

/// Searches the graph for functions, classes and types whose name
/// equals or holds `symbol_name`. The hits are sorted by file and, within
/// a file, by name.
pub fn query_symbol(graph: &CodeGraph, symbol_name: &str, opts: &QueryOptions) -> (results: Vec<
    SymbolResult,
>)
    ensures
        results.deep_view() == query_symbol_spec(
            *graph,
            symbol_name@,
            opts.type_filter.deep_view(),
        ),
{
    let mut results: Vec<SymbolResult> = Vec::new();
    let n = graph.files.len();
    let mut i: usize = 0;
    proof {
        assert(results.deep_view() =~= Seq::<SymbolModel>::empty());
    }
    while i < n
        invariant
            i <= n,
            n == graph.files.keys().len(),
            n == graph.files.values().len(),
            results.deep_view() == query_upto(
                *graph,
                symbol_name@,
                opts.type_filter.deep_view(),
                i as int,
            ),
        decreases n - i,
    {
        let hits = hits_of_file(graph, i, symbol_name, opts);
        append_sorted(&mut results, hits);
        i += 1;
    }
    results
}

// ---------------------------------------------------------------------------
// The order of hits
// ---------------------------------------------------------------------------

/// Every hit of `s` lies in the file `file`.
pub open spec fn all_in_file(s: Seq<SymbolModel>, file: Seq<char>) -> bool {
    forall|k: int| 0 <= k < s.len() ==> (#[trigger] s[k]).file == file
}

/// The names of the hits ascend.
pub open spec fn names_ascend(s: Seq<SymbolModel>) -> bool {
    forall|a: int, b: int| 0 <= a < b < s.len() ==> lex_le((#[trigger] s[a]).name, (#[trigger] s[b]).name)
}

/// The hits among the functions of a file lie in that file.
proof fn lemma_function_hits_file(g: CodeGraph, i: int, query: Seq<char>, n: int)
    ensures
        all_in_file(function_hits(g, i, query, n), g.files.keys()[i]),
    decreases n,
{
    if n > 0 {
        lemma_function_hits_file(g, i, query, n - 1);
    }
}

/// The hits among the classes of a file lie in that file.
proof fn lemma_class_hits_file(g: CodeGraph, i: int, query: Seq<char>, n: int)
    ensures
        all_in_file(class_hits(g, i, query, n), g.files.keys()[i]),
    decreases n,
{
    if n > 0 {
        lemma_class_hits_file(g, i, query, n - 1);
    }
}

/// The hits among the types of a file lie in that file.
proof fn lemma_type_hits_file(g: CodeGraph, i: int, query: Seq<char>, n: int)
    ensures
        all_in_file(type_hits(g, i, query, n), g.files.keys()[i]),
    decreases n,
{
    if n > 0 {
        lemma_type_hits_file(g, i, query, n - 1);
    }
}

/// Putting a hit at its place keeps the file and the order of names.
proof fn lemma_insert_hit(s: Seq<SymbolModel>, h: SymbolModel, file: Seq<char>)
    requires
        all_in_file(s, file),
        h.file == file,
        names_ascend(s),
    ensures
        all_in_file(insert_hit(s, h), file),
        names_ascend(insert_hit(s, h)),
        insert_hit(s, h).len() == s.len() + 1,
        forall|k: int|
            0 <= k < insert_hit(s, h).len() ==> (#[trigger] insert_hit(s, h)[k]) == h || s.contains(
                insert_hit(s, h)[k],
            ),
    decreases s.len(),
{
    let r = insert_hit(s, h);
    if s.len() > 0 && lex_lt(h.name, s.last().name) {
        let t = s.drop_last();
        assert forall|a: int, b: int| 0 <= a < b < t.len() implies lex_le(
            (#[trigger] t[a]).name,
            (#[trigger] t[b]).name,
        ) by {
            assert(t[a] == s[a] && t[b] == s[b]);
        }
        assert forall|k: int| 0 <= k < t.len() implies (#[trigger] t[k]).file == file by {
            assert(t[k] == s[k]);
        }
        lemma_insert_hit(t, h, file);
        let u = insert_hit(t, h);
        assert(r == u.push(s.last()));
        assert(s.last() == s[s.len() - 1]);
        assert forall|k: int| 0 <= k < r.len() implies (#[trigger] r[k]) == h || s.contains(
            r[k],
        ) by {
            if k < u.len() {
                assert(r[k] == u[k]);
                if u[k] != h {
                    let w = choose|w: int| 0 <= w < t.len() && t[w] == u[k];
                    assert(s[w] == u[k]);
                }
            }
        }
        assert forall|a: int, b: int| 0 <= a < b < r.len() implies lex_le(
            (#[trigger] r[a]).name,
            (#[trigger] r[b]).name,
        ) by {
            if b < u.len() {
                assert(r[a] == u[a] && r[b] == u[b]);
            } else {
                assert(r[a] == u[a]);
                if u[a] == h {
                } else {
                    let w = choose|w: int| 0 <= w < t.len() && t[w] == u[a];
                    assert(s[w] == u[a]);
                    assert(lex_le(s[w].name, s[s.len() - 1].name));
                }
            }
        }
    } else {
        assert(r == s.push(h));
        assert forall|k: int| 0 <= k < r.len() implies (#[trigger] r[k]) == h || s.contains(
            r[k],
        ) by {
            if k < s.len() {
                assert(s[k] == r[k]);
            }
        }
        assert forall|a: int, b: int| 0 <= a < b < r.len() implies lex_le(
            (#[trigger] r[a]).name,
            (#[trigger] r[b]).name,
        ) by {
            if b < s.len() {
                assert(r[a] == s[a] && r[b] == s[b]);
            } else {
                assert(r[a] == s[a]);
                if s.len() > 0 {
                    assert(lex_le(s[a].name, s[s.len() - 1].name));
                    crate::text::lemma_lex_connected(h.name, s.last().name);
                    if s[a].name != s.last().name && s.last().name != h.name {
                        crate::text::lemma_lex_transitive(s[a].name, s.last().name, h.name);
                    }
                }
            }
        }
    }
}

/// Sorted hits of one file lie in that file, in ascending order of
/// their names.
proof fn lemma_sort_hits(s: Seq<SymbolModel>, file: Seq<char>)
    requires
        all_in_file(s, file),
    ensures
        all_in_file(sort_hits(s), file),
        names_ascend(sort_hits(s)),
    decreases s.len(),
{
    if s.len() > 0 {
        let t = s.drop_last();
        assert forall|k: int| 0 <= k < t.len() implies (#[trigger] t[k]).file == file by {
            assert(t[k] == s[k]);
        }
        lemma_sort_hits(t, file);
        assert(s.last() == s[s.len() - 1]);
        lemma_insert_hit(sort_hits(t), s.last(), file);
    }
}

/// The hits of a file lie in that file.
proof fn lemma_file_hits_file(g: CodeGraph, i: int, query: Seq<char>, filter: Option<Seq<char>>)
    ensures
        all_in_file(file_hits(g, i, query, filter), g.files.keys()[i]),
{
    let file = file_models(g.files)[i];
    lemma_function_hits_file(g, i, query, file.functions.len() as int);
    lemma_class_hits_file(g, i, query, file.classes.len() as int);
    lemma_type_hits_file(g, i, query, file.types.len() as int);
}

/// Whether hit `a` stands before hit `b` in the order of files and
/// names, or with it.
pub open spec fn in_order(a: SymbolModel, b: SymbolModel) -> bool {
    lex_lt(a.file, b.file) || (a.file == b.file && lex_le(a.name, b.name))
}

/// The hits of the first `n` files lie in these files and stand in the
/// order of files and names.
proof fn lemma_query_upto_ordered(
    g: CodeGraph,
    query: Seq<char>,
    filter: Option<Seq<char>>,
    n: int,
)
    requires
        g.files.wf(),
        n <= g.files.keys().len(),
    ensures
        forall|k: int|
            0 <= k < query_upto(g, query, filter, n).len() ==> exists|m: int|
                0 <= m < n && (#[trigger] query_upto(g, query, filter, n)[k]).file
                    == g.files.keys()[m],
        forall|a: int, b: int|
            0 <= a < b < query_upto(g, query, filter, n).len() ==> in_order(
                #[trigger] query_upto(g, query, filter, n)[a],
                #[trigger] query_upto(g, query, filter, n)[b],
            ),
    decreases n,
{
    if n > 0 {
        lemma_query_upto_ordered(g, query, filter, n - 1);
        let prev = query_upto(g, query, filter, n - 1);
        let group = sort_hits(file_hits(g, n - 1, query, filter));
        let all = query_upto(g, query, filter, n);
        let key = g.files.keys()[n - 1];
        lemma_file_hits_file(g, n - 1, query, filter);
        lemma_sort_hits(file_hits(g, n - 1, query, filter), key);
        assert(all == prev + group);
        assert forall|k: int| 0 <= k < all.len() implies exists|m: int|
            0 <= m < n && (#[trigger] all[k]).file == g.files.keys()[m] by {
            if k < prev.len() {
                assert(all[k] == prev[k]);
                let m = choose|m: int| 0 <= m < n - 1 && prev[k].file == g.files.keys()[m];
                assert(0 <= m < n && all[k].file == g.files.keys()[m]);
            } else {
                assert(all[k] == group[k - prev.len()]);
                assert(0 <= n - 1 < n && all[k].file == g.files.keys()[n - 1]);
            }
        }
        assert forall|a: int, b: int| 0 <= a < b < all.len() implies in_order(
            #[trigger] all[a],
            #[trigger] all[b],
        ) by {
            if b < prev.len() {
                assert(all[a] == prev[a] && all[b] == prev[b]);
            } else if a < prev.len() {
                assert(all[a] == prev[a]);
                assert(all[b] == group[b - prev.len()]);
                let m = choose|m: int| 0 <= m < n - 1 && prev[a].file == g.files.keys()[m];
                assert(lex_lt(g.files.keys()[m], g.files.keys()[n - 1]));
            } else {
                assert(all[a] == group[a - prev.len()]);
                assert(all[b] == group[b - prev.len()]);
            }
        }
    }
}

/// The hits of a symbol query stand in the order of their files and,
/// within a file, of their names.
pub proof fn law_query_sorted(
    g: CodeGraph,
    query: Seq<char>,
    filter: Option<Seq<char>>,
    a: int,
    b: int,
)
    requires
        g.files.wf(),
        0 <= a < b < query_symbol_spec(g, query, filter).len(),
    ensures
        in_order(query_symbol_spec(g, query, filter)[a], query_symbol_spec(g, query, filter)[b]),
{
    lemma_query_upto_ordered(g, query, filter, g.files.keys().len() as int);
}

// ---------------------------------------------------------------------------
// Module queries
// ---------------------------------------------------------------------------

/// The record of a module, if the graph has one of that name.
pub fn query_module(graph: &CodeGraph, module_name: &str) -> (r: Option<ModuleResult>)
    ensures
        match r {
            Some(m) => graph.modules.has(module_name@) && m.name@ == module_name@
                && m.files.deep_view() == graph.modules.value_of(module_name@).files.deep_view()
                && m.depends_on.deep_view() == graph.modules.value_of(
                module_name@,
            ).depends_on.deep_view() && m.depended_by.deep_view() == graph.modules.value_of(
                module_name@,
            ).depended_by.deep_view(),
            None => !graph.modules.has(module_name@),
        },
{
    match graph.modules.get(module_name) {
        Some(mod_data) => Some(
            ModuleResult {
                name: owned(module_name),
                files: clone_strings(&mod_data.files),
                depends_on: clone_strings(&mod_data.depends_on),
                depended_by: clone_strings(&mod_data.depended_by),
            },
        ),
        None => None,
    }
}

/// The modules that depend on `module_name`; none for an unknown
/// module.
pub fn query_dependants(graph: &CodeGraph, module_name: &str) -> (out: Vec<String>)
    ensures
        out.deep_view() == if graph.modules.has(module_name@) {
            graph.modules.value_of(module_name@).depended_by.deep_view()
        } else {
            Seq::empty()
        },
{
    match graph.modules.get(module_name) {
        Some(m) => clone_strings(&m.depended_by),
        None => {
            let out: Vec<String> = Vec::new();
            proof {
                assert(out.deep_view() =~= Seq::<Seq<char>>::empty());
            }
            out
        },
    }
}

/// The modules that `module_name` depends on; none for an unknown
/// module.
pub fn query_dependencies(graph: &CodeGraph, module_name: &str) -> (out: Vec<String>)
    ensures
        out.deep_view() == if graph.modules.has(module_name@) {
            graph.modules.value_of(module_name@).depends_on.deep_view()
        } else {
            Seq::empty()
        },
{
    match graph.modules.get(module_name) {
        Some(m) => clone_strings(&m.depends_on),
        None => {
            let out: Vec<String> = Vec::new();
            proof {
                assert(out.deep_view() =~= Seq::<Seq<char>>::empty());
            }
            out
        },
    }
}

// ---------------------------------------------------------------------------
// Text output
// ---------------------------------------------------------------------------

/// The first line of the description of a hit.
pub open spec fn symbol_head(r: SymbolModel) -> Seq<char> {
    "["@ + r.kind + "] "@ + r.name + " ("@ + r.file + ":"@ + decimal(r.lines.start as nat) + ")\n"@
}

/// The line that shows the signature of a hit, where it has one that
/// differs from its name.
pub open spec fn symbol_signature(r: SymbolModel) -> Seq<char> {
    match r.signature {
        Some(sig) => if sig.len() > 0 && sig != r.name {
            "  signature: "@ + sig + "\n"@
        } else {
            Seq::empty()
        },
        None => Seq::empty(),
    }
}

/// The lines that show the module and the lines of a hit.
pub open spec fn symbol_place(r: SymbolModel) -> Seq<char> {
    "  module:    "@ + r.module + "\n"@ + "  lines:     "@ + decimal(r.lines.start as nat) + "-"@
        + decimal(r.lines.end as nat) + "\n"@
}

/// The line that shows the files that import a hit, where there are
/// any.
pub open spec fn symbol_callers(r: SymbolModel) -> Seq<char> {
    if r.imported_by.len() > 0 {
        "  importedBy: "@ + join(r.imported_by, ", "@) + "\n"@
    } else {
        Seq::empty()
    }
}

/// The lines that describe one hit, each ended by a line feed, and an
/// empty line behind them.
pub open spec fn symbol_text(r: SymbolModel) -> Seq<char> {
    symbol_head(r) + symbol_signature(r) + symbol_place(r) + symbol_callers(r) + "\n"@
}

/// The descriptions of the first `n` hits, one behind the other.
pub open spec fn symbols_text(results: Seq<SymbolModel>, n: int) -> Seq<char>
    decreases n,
{
    if n <= 0 {
        Seq::empty()
    } else {
        symbols_text(results, n - 1) + symbol_text(results[n - 1])
    }
}

/// The text that describes the hits of a symbol query.
pub open spec fn format_symbols_spec(results: Seq<SymbolModel>) -> Seq<char> {
    if results.len() == 0 {
        "No symbols found."@
    } else {
        drop_ws(symbols_text(results, results.len() as int))
    }
}

/// The first line of the description of a hit.
fn head_of(r: &SymbolResult) -> (out: Vec<char>)
    ensures
        out@ == symbol_head(r.deep_view()),
{
    let mut part = chars_of("[");
    push_str(&mut part, r.kind.as_str());
    push_str(&mut part, "] ");
    push_str(&mut part, r.name.as_str());
    push_str(&mut part, " (");
    push_str(&mut part, r.file.as_str());
    push_str(&mut part, ":");
    let d = decimal_digits(r.lines.start as u64);
    push_chars(&mut part, &d);
    push_str(&mut part, ")\n");
    part
}

/// The signature line of the description of a hit.
fn signature_of(r: &SymbolResult) -> (out: Vec<char>)
    ensures
        out@ == symbol_signature(r.deep_view()),
{
    match &r.signature {
        Some(sig) => {
            if sig.as_str().unicode_len() > 0 && !str_eq(sig.as_str(), r.name.as_str()) {
                let mut part = chars_of("  signature: ");
                push_str(&mut part, sig.as_str());
                push_str(&mut part, "\n");
                part
            } else {
                Vec::new()
            }
        },
        None => Vec::new(),
    }
}

/// The module and lines of the description of a hit.
fn place_of(r: &SymbolResult) -> (out: Vec<char>)
    ensures
        out@ == symbol_place(r.deep_view()),
{
    let mut part = chars_of("  module:    ");
    push_str(&mut part, r.module.as_str());
    push_str(&mut part, "\n");
    push_str(&mut part, "  lines:     ");
    let a = decimal_digits(r.lines.start as u64);
    push_chars(&mut part, &a);
    push_str(&mut part, "-");
    let b = decimal_digits(r.lines.end as u64);
    push_chars(&mut part, &b);
    push_str(&mut part, "\n");
    part
}

/// A line that lists names behind a label, where there are any.
pub open spec fn list_line(label: Seq<char>, names: Seq<Seq<char>>) -> Seq<char> {
    if names.len() > 0 {
        label + join(names, ", "@) + "\n"@
    } else {
        Seq::empty()
    }
}

/// A line that lists names behind a label, where there are any.
fn list_line_of(label: &str, names: &Vec<String>) -> (out: Vec<char>)
    ensures
        out@ == list_line(label@, names.deep_view()),
{
    if names.len() > 0 {
        let mut part = chars_of(label);
        let joined = join_strings(names, ", ");
        push_str(&mut part, joined.as_str());
        push_str(&mut part, "\n");
        part
    } else {
        Vec::new()
    }
}

/// Describes the hits of a symbol query as text.
pub fn format_symbol_results(results: &Vec<SymbolResult>) -> (out: String)
    ensures
        out@ == format_symbols_spec(results.deep_view()),
{
    if results.len() == 0 {
        return owned("No symbols found.");
    }
    let mut buf: Vec<char> = Vec::new();
    let ghost all = results.deep_view();
    let mut i: usize = 0;
    while i < results.len()
        invariant
            i <= results.len(),
            all == results.deep_view(),
            buf@ == symbols_text(all, i as int),
        decreases results.len() - i,
    {
        let r = &results[i];
        let ghost m = all[i as int];
        proof {
            assert(m == r.deep_view());
        }
        let mut part = head_of(r);
        push_chars(&mut part, &signature_of(r));
        push_chars(&mut part, &place_of(r));
        push_chars(&mut part, &list_line_of("  importedBy: ", &r.imported_by));
        push_str(&mut part, "\n");
        proof {
            assert(list_line("  importedBy: "@, m.imported_by) == symbol_callers(m));
            assert(part@ == symbol_text(m));
        }
        push_chars(&mut buf, &part);
        i += 1;
    }
    let t = trim_end(&buf);
    string_of(&t)
}

/// The lines that list the first `n` files of a module.
pub open spec fn file_lines(files: Seq<Seq<char>>, n: int) -> Seq<char>
    decreases n,
{
    if n <= 0 {
        Seq::empty()
    } else {
        file_lines(files, n - 1) + ("    "@ + files[n - 1] + "\n"@)
    }
}

/// The first two lines of the description of a module.
pub open spec fn module_head(name: Seq<char>, count: nat) -> Seq<char> {
    "module: "@ + name + "\n"@ + "  files ("@ + decimal(count) + "):\n"@
}

/// The text that describes a module.
pub open spec fn format_module_spec(
    name: Seq<char>,
    files: Seq<Seq<char>>,
    depends_on: Seq<Seq<char>>,
    depended_by: Seq<Seq<char>>,
) -> Seq<char> {
    drop_ws(
        module_head(name, files.len()) + file_lines(files, files.len() as int) + list_line(
            "  dependsOn: "@,
            depends_on,
        ) + list_line("  dependedBy: "@, depended_by),
    )
}

/// The lines that list the files of a module.
fn file_lines_of(files: &Vec<String>) -> (out: Vec<char>)
    ensures
        out@ == file_lines(files.deep_view(), files.len() as int),
{
    let mut out: Vec<char> = Vec::new();
    let ghost all = files.deep_view();
    let mut i: usize = 0;
    while i < files.len()
        invariant
            i <= files.len(),
            all == files.deep_view(),
            out@ == file_lines(all, i as int),
        decreases files.len() - i,
    {
        let mut line = chars_of("    ");
        push_str(&mut line, files[i].as_str());
        push_str(&mut line, "\n");
        proof {
            assert(all[i as int] == files@[i as int]@);
        }
        push_chars(&mut out, &line);
        i += 1;
    }
    out
}

/// Describes a module as text.
pub fn format_module_result(result: &ModuleResult) -> (out: String)
    ensures
        out@ == format_module_spec(
            result.name@,
            result.files.deep_view(),
            result.depends_on.deep_view(),
            result.depended_by.deep_view(),
        ),
{
    let mut buf = chars_of("module: ");
    push_str(&mut buf, result.name.as_str());
    push_str(&mut buf, "\n");
    push_str(&mut buf, "  files (");
    let count = decimal_digits(result.files.len() as u64);
    push_chars(&mut buf, &count);
    push_str(&mut buf, "):\n");
    proof {
        assert(buf@ == module_head(result.name@, result.files.deep_view().len()));
    }
    push_chars(&mut buf, &file_lines_of(&result.files));
    push_chars(&mut buf, &list_line_of("  dependsOn: ", &result.depends_on));
    push_chars(&mut buf, &list_line_of("  dependedBy: ", &result.depended_by));
    let t = trim_end(&buf);
    string_of(&t)
}

} // verus!
