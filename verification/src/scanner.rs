//! The graph builder: from the facts that the adapters extract to the
//! records of the graph, from a path to the name of its module, and from
//! a set of source files to the graph of a project.

use crate::deps::{edges_exact, table_view};
use crate::differ::{
    detect_changed_files, file_map, is_changeset, lemma_contains_take_next, lemma_file_map_insert,
    lemma_file_map_remove, merge_graph_update, merged, state_of, update_all, ChangeSet,
    MergeState,
};
use crate::graph::{
    compute_file_hash, create_empty_graph, file_hash, is_entry_name, is_entry_point, ClassInfo,
    ClassInfoModel, CodeGraph, FileEntry, FileEntryModel, FunctionInfo, FunctionInfoModel,
    ImportInfo, ImportInfoModel, MetaInfo, TypeInfo, TypeInfoModel,
};
use crate::invariants::{
    files_in_modules, graph_invariants, law_merge_keeps_invariants, lemma_merge_invariants,
    modules_own_files, posix_paths,
};
use crate::languages::collect::{
    classes_spec, exports_spec, extract_classes, extract_exports, extract_functions,
    extract_imports, functions_spec, imports_spec,
};
use crate::languages::facts::{ClassFact, ExportFact, FunctionFact, ImportFact};
use crate::ordered::{clone_strings, contains_string};
use crate::parser::{grammar_of_spec, parse_source, parsed_model};
use crate::path_utils::{
    indexed_path, is_normal, lemma_indexed_normal, normalize_path, relative_segments,
    relative_to,
};
use crate::str_map::StrMap;
use crate::summary::{clamp32, file_models, summary_exact};
use crate::syntax::{SyntaxTree, TreeModel};
use crate::text::{chars_of, join, join_strings, owned, push_str, str_eq, string_of};
use crate::traverser::{
    detect_language, detect_language_spec, effective_language, file_stem_of, has_cpp_source_files,
    is_cpp_source, is_shared_header, language_tag, lowercase, Language,
};
use vstd::prelude::*;

verus! {

// ---------------------------------------------------------------------------
// From facts to records
// ---------------------------------------------------------------------------

/// The signature of a function: its name and, in parentheses, its
/// parameter names joined by a comma and a space.
pub open spec fn signature_of(f: FunctionFact) -> Seq<char> {
    f.name + "("@ + join(f.params, ", "@) + ")"@
}

/// The record of a function. Lines are cut to 32 bits.
pub open spec fn convert_function(f: FunctionFact) -> FunctionInfoModel {
    FunctionInfoModel {
        name: f.name,
        signature: signature_of(f),
        start_line: f.start_line as u32,
        end_line: f.end_line as u32,
    }
}

/// The records of functions, one per fact.
pub open spec fn convert_functions_spec(fs: Seq<FunctionFact>) -> Seq<FunctionInfoModel> {
    Seq::new(fs.len(), |i: int| convert_function(fs[i]))
}

/// The records of functions, one per fact.
pub fn convert_functions(lang_functions: &Vec<crate::languages::facts::FunctionInfo>) -> (out: Vec<
    FunctionInfo,
>)
    ensures
        out.deep_view() == convert_functions_spec(lang_functions.deep_view()),
{
    let mut out: Vec<FunctionInfo> = Vec::new();
    let ghost all = convert_functions_spec(lang_functions.deep_view());
    let mut i: usize = 0;
    proof {
        assert(out.deep_view() =~= all.take(0));
    }
    while i < lang_functions.len()
        invariant
            i <= lang_functions.len(),
            all == convert_functions_spec(lang_functions.deep_view()),
            out.deep_view() == all.take(i as int),
        decreases lang_functions.len() - i,
    {
        let f = &lang_functions[i];
        let ghost before = out.deep_view();
        let mut sig = chars_of(f.name.as_str());
        push_str(&mut sig, "(");
        let joined = join_strings(&f.params, ", ");
        push_str(&mut sig, joined.as_str());
        push_str(&mut sig, ")");
        let info = FunctionInfo {
            name: f.name.clone(),
            signature: string_of(&sig),
            start_line: #[verifier::truncate]
            (f.start_line as u32),
            end_line: #[verifier::truncate]
            (f.end_line as u32),
        };
        out.push(info);
        proof {
            assert(info.deep_view() == convert_function(lang_functions.deep_view()[i as int]));
            assert(out.deep_view() =~= before.push(info.deep_view()));
            assert(all.take(i + 1) =~= all.take(i as int).push(all[i as int]));
        }
        i += 1;
    }
    proof {
        assert(all.take(lang_functions@.len() as int) =~= all);
    }
    out
}

/// Whether a class-like fact counts as a class of the graph.
pub open spec fn is_class_kind(kind: Seq<char>) -> bool {
    kind == "class"@ || kind == "struct"@
}

/// The class records of the first `n` facts: those of kind `class` or
/// `struct`.
pub open spec fn convert_classes_upto(cs: Seq<ClassFact>, n: int) -> Seq<ClassInfoModel>
    decreases n,
{
    if n <= 0 {
        Seq::empty()
    } else if is_class_kind(cs[n - 1].kind) {
        convert_classes_upto(cs, n - 1).push(
            ClassInfoModel {
                name: cs[n - 1].name,
                start_line: cs[n - 1].start_line as u32,
                end_line: cs[n - 1].end_line as u32,
            },
        )
    } else {
        convert_classes_upto(cs, n - 1)
    }
}

/// The class records of class-like facts.
pub open spec fn convert_classes_spec(cs: Seq<ClassFact>) -> Seq<ClassInfoModel> {
    convert_classes_upto(cs, cs.len() as int)
}

/// The class records of class-like facts: those of kind `class` or
/// `struct`.
pub fn convert_classes(lang_classes: &Vec<crate::languages::facts::ClassInfo>) -> (out: Vec<
    ClassInfo,
>)
    ensures
        out.deep_view() == convert_classes_spec(lang_classes.deep_view()),
{
    let mut out: Vec<ClassInfo> = Vec::new();
    let ghost cs = lang_classes.deep_view();
    let mut i: usize = 0;
    proof {
        assert(out.deep_view() =~= Seq::<ClassInfoModel>::empty());
    }
    while i < lang_classes.len()
        invariant
            i <= lang_classes.len(),
            cs == lang_classes.deep_view(),
            out.deep_view() == convert_classes_upto(cs, i as int),
        decreases lang_classes.len() - i,
    {
        let c = &lang_classes[i];
        let ghost before = out.deep_view();
        proof {
            assert(cs[i as int] == c.deep_view());
        }
        if str_eq(c.kind.as_str(), "class") || str_eq(c.kind.as_str(), "struct") {
            let info = ClassInfo {
                name: c.name.clone(),
                start_line: #[verifier::truncate]
                (c.start_line as u32),
                end_line: #[verifier::truncate]
                (c.end_line as u32),
            };
            out.push(info);
            proof {
                assert(out.deep_view() =~= before.push(info.deep_view()));
            }
        }
        i += 1;
    }
    out
}

/// Whether a class-like fact counts as a type of the graph: all do but
/// the classes of Python.
pub open spec fn is_type_fact(c: ClassFact, language: Language) -> bool {
    !(language == Language::Python && c.kind == "class"@)
}

/// The type records of the first `n` facts.
pub open spec fn convert_types_upto(cs: Seq<ClassFact>, language: Language, n: int) -> Seq<
    TypeInfoModel,
>
    decreases n,
{
    if n <= 0 {
        Seq::empty()
    } else if is_type_fact(cs[n - 1], language) {
        convert_types_upto(cs, language, n - 1).push(
            TypeInfoModel {
                name: cs[n - 1].name,
                kind: cs[n - 1].kind,
                start_line: cs[n - 1].start_line as u32,
                end_line: cs[n - 1].end_line as u32,
            },
        )
    } else {
        convert_types_upto(cs, language, n - 1)
    }
}

/// The type records of class-like facts.
pub open spec fn convert_types_spec(cs: Seq<ClassFact>, language: Language) -> Seq<TypeInfoModel> {
    convert_types_upto(cs, language, cs.len() as int)
}

/// The type records of class-like facts: all but the classes of Python.
pub fn convert_types(
    lang_classes: &Vec<crate::languages::facts::ClassInfo>,
    lang: Language,
) -> (out: Vec<TypeInfo>)
    ensures
        out.deep_view() == convert_types_spec(lang_classes.deep_view(), lang),
{
    let mut out: Vec<TypeInfo> = Vec::new();
    let ghost cs = lang_classes.deep_view();
    let mut i: usize = 0;
    proof {
        assert(out.deep_view() =~= Seq::<TypeInfoModel>::empty());
    }
    while i < lang_classes.len()
        invariant
            i <= lang_classes.len(),
            cs == lang_classes.deep_view(),
            out.deep_view() == convert_types_upto(cs, lang, i as int),
        decreases lang_classes.len() - i,
    {
        let c = &lang_classes[i];
        let ghost before = out.deep_view();
        proof {
            assert(cs[i as int] == c.deep_view());
        }
        if !(lang == Language::Python && str_eq(c.kind.as_str(), "class")) {
            let info = TypeInfo {
                name: c.name.clone(),
                kind: c.kind.clone(),
                start_line: #[verifier::truncate]
                (c.start_line as u32),
                end_line: #[verifier::truncate]
                (c.end_line as u32),
            };
            out.push(info);
            proof {
                assert(out.deep_view() =~= before.push(info.deep_view()));
            }
        }
        i += 1;
    }
    out
}

/// Whether an import source is external: it does not begin with `.`.
pub open spec fn is_external_source(source: Seq<char>) -> bool {
    !(source.len() > 0 && source[0] == '.')
}

/// The record of an import.
pub open spec fn convert_import(f: ImportFact) -> ImportInfoModel {
    ImportInfoModel { source: f.source, symbols: f.names, is_external: is_external_source(f.source) }
}

/// The records of imports, one per fact.
pub open spec fn convert_imports_spec(fs: Seq<ImportFact>) -> Seq<ImportInfoModel> {
    Seq::new(fs.len(), |i: int| convert_import(fs[i]))
}

/// The records of imports, one per fact. An import is external unless
/// its source begins with `.`.
pub fn convert_imports(lang_imports: &Vec<crate::languages::facts::ImportInfo>) -> (out: Vec<
    ImportInfo,
>)
    ensures
        out.deep_view() == convert_imports_spec(lang_imports.deep_view()),
{
    let mut out: Vec<ImportInfo> = Vec::new();
    let ghost all = convert_imports_spec(lang_imports.deep_view());
    let mut i: usize = 0;
    proof {
        assert(out.deep_view() =~= all.take(0));
    }
    while i < lang_imports.len()
        invariant
            i <= lang_imports.len(),
            all == convert_imports_spec(lang_imports.deep_view()),
            out.deep_view() == all.take(i as int),
        decreases lang_imports.len() - i,
    {
        let f = &lang_imports[i];
        let ghost before = out.deep_view();
        let src = chars_of(f.source.as_str());
        let relative = src.len() > 0 && src[0] == '.';
        let info = ImportInfo {
            source: f.source.clone(),
            symbols: clone_strings(&f.names),
            is_external: !relative,
        };
        out.push(info);
        proof {
            assert(info.deep_view() == convert_import(lang_imports.deep_view()[i as int]));
            assert(out.deep_view() =~= before.push(info.deep_view()));
            assert(all.take(i + 1) =~= all.take(i as int).push(all[i as int]));
        }
        i += 1;
    }
    proof {
        assert(all.take(lang_imports@.len() as int) =~= all);
    }
    out
}

/// The names of exports, one per fact.
pub open spec fn convert_exports_spec(fs: Seq<ExportFact>) -> Seq<Seq<char>> {
    Seq::new(fs.len(), |i: int| fs[i].name)
}

/// The names of exports, one per fact.
pub fn convert_exports(lang_exports: &Vec<crate::languages::facts::ExportInfo>) -> (out: Vec<
    String,
>)
    ensures
        out.deep_view() == convert_exports_spec(lang_exports.deep_view()),
{
    let mut out: Vec<String> = Vec::new();
    let ghost all = convert_exports_spec(lang_exports.deep_view());
    let mut i: usize = 0;
    proof {
        assert(out.deep_view() =~= all.take(0));
    }
    while i < lang_exports.len()
        invariant
            i <= lang_exports.len(),
            all == convert_exports_spec(lang_exports.deep_view()),
            out.deep_view() == all.take(i as int),
        decreases lang_exports.len() - i,
    {
        let ghost before = out.deep_view();
        let name = lang_exports[i].name.clone();
        out.push(name);
        proof {
            assert(out.deep_view() =~= before.push(lang_exports@[i as int].name@));
            assert(all[i as int] == lang_exports@[i as int].name@);
            assert(all.take(i + 1) =~= all.take(i as int).push(all[i as int]));
        }
        i += 1;
    }
    proof {
        assert(all.take(lang_exports@.len() as int) =~= all);
    }
    out
}

// ---------------------------------------------------------------------------
// Module names
// ---------------------------------------------------------------------------

/// Whether a directory name is one of the common top directories that
/// give no module its name.
pub open spec fn is_common_root(name: Seq<char>) -> bool {
    name == "src"@ || name == "lib"@ || name == "app"@ || name == "source"@ || name
        == "packages"@
}

/// `dirs` without its leading common top directories.
pub open spec fn skip_common(dirs: Seq<Seq<char>>) -> Seq<Seq<char>>
    decreases dirs.len(),
{
    if dirs.len() > 0 && is_common_root(dirs[0]) {
        skip_common(dirs.drop_first())
    } else {
        dirs
    }
}

/// The module of a file, by the components of its path relative to the
/// root: the first directory behind the common top directories, or
/// `_root` where there is none.
pub open spec fn module_of_relative(rel: Seq<Seq<char>>) -> Seq<char> {
    let dirs = if rel.len() > 0 {
        rel.drop_last()
    } else {
        rel
    };
    let rest = skip_common(dirs);
    if rest.len() == 0 {
        "_root"@
    } else {
        rest[0]
    }
}

/// The module of a file under a root. A file that does not lie under
/// the root belongs to `_root`.
pub open spec fn detect_module_spec(file_path: Seq<char>, root_dir: Seq<char>) -> Seq<char> {
    match relative_to(file_path, root_dir) {
        Some(rel) => module_of_relative(rel),
        None => "_root"@,
    }
}

/// Tests whether a directory name is a common top directory.
fn common_root(name: &str) -> (r: bool)
    ensures
        r == is_common_root(name@),
{
    str_eq(name, "src") || str_eq(name, "lib") || str_eq(name, "app") || str_eq(name, "source")
        || str_eq(name, "packages")
}

/// The module that a file belongs to.
pub fn detect_module_name(file_path: &str, root_dir: &str) -> (module: String)
    ensures
        module@ == detect_module_spec(file_path@, root_dir@),
{
    match relative_segments(file_path, root_dir) {
        Some(rel) => {
            let dirs: usize = if rel.len() > 0 {
                rel.len() - 1
            } else {
                0
            };
            let ghost d = if rel.len() > 0 {
                rel.deep_view().drop_last()
            } else {
                rel.deep_view()
            };
            let mut k: usize = 0;
            proof {
                assert(d.skip(0) =~= d);
            }
            while k < dirs && common_root(rel[k].as_str())
                invariant
                    k <= dirs,
                    dirs == d.len(),
                    dirs <= rel.len(),
                    forall|j: int| 0 <= j < dirs ==> d[j] == rel.deep_view()[j],
                    skip_common(d) == skip_common(d.skip(k as int)),
                decreases dirs - k,
            {
                proof {
                    assert(d.skip(k as int)[0] == rel.deep_view()[k as int]);
                    assert(d.skip(k as int).drop_first() =~= d.skip(k + 1));
                }
                k += 1;
            }
            proof {
                if k < dirs {
                    assert(d.skip(k as int)[0] == rel.deep_view()[k as int]);
                }
            }
            if k < dirs {
                rel[k].clone()
            } else {
                owned("_root")
            }
        },
        None => owned("_root"),
    }
}

/// A file that lies directly under the root belongs to the module
/// `_root`.
pub proof fn law_root_file_module(file_path: Seq<char>, root_dir: Seq<char>)
    requires
        relative_to(file_path, root_dir).is_some(),
        relative_to(file_path, root_dir).unwrap().len() <= 1,
    ensures
        detect_module_spec(file_path, root_dir) == "_root"@,
{
    let rel = relative_to(file_path, root_dir).unwrap();
    if rel.len() == 1 {
        assert(rel.drop_last().len() == 0);
    }
}

// ---------------------------------------------------------------------------
// One file
// ---------------------------------------------------------------------------

/// The number of line feeds among the first `n` bytes.
pub open spec fn newlines(content: Seq<u8>, n: int) -> nat
    decreases n,
{
    if n <= 0 {
        0
    } else {
        newlines(content, n - 1) + if content[n - 1] == 10u8 {
            1nat
        } else {
            0nat
        }
    }
}

/// The number of lines of a file: one more than its line feeds, at most
/// the largest `u32`.
pub open spec fn line_count(content: Seq<u8>) -> u32 {
    clamp32(newlines(content, content.len() as int) + 1)
}

/// Counts the lines of a file.
pub fn count_lines(content: &[u8]) -> (n: u32)
    ensures
        n == line_count(content@),
{
    let mut count: u32 = 1;
    let mut i: usize = 0;
    while i < content.len()
        invariant
            i <= content.len(),
            count == clamp32(newlines(content@, i as int) + 1),
        decreases content.len() - i,
    {
        if content[i] == 10u8 {
            count = count.saturating_add(1);
        }
        i += 1;
    }
    count
}

/// The record of a file of `language` whose parse tree is `t`.
pub open spec fn file_entry_spec(
    rel_path: Seq<char>,
    content: Seq<u8>,
    language: Language,
    t: TreeModel,
) -> FileEntryModel {
    FileEntryModel {
        language: language_tag(language),
        module: detect_module_spec(rel_path, Seq::empty()),
        hash: file_hash(content),
        lines: line_count(content),
        functions: convert_functions_spec(functions_spec(language, t, content)),
        classes: convert_classes_spec(classes_spec(language, t, content)),
        types: convert_types_spec(classes_spec(language, t, content), language),
        imports: convert_imports_spec(imports_spec(language, t, content)),
        exports: convert_exports_spec(exports_spec(language, t, content)),
        is_entry_point: is_entry_name(lowercase(file_stem_of(rel_path))),
    }
}

/// Builds the record of a parsed file. `rel_path` is the path of the
/// file relative to the project root.
pub fn entry_from_tree(rel_path: &str, content: &[u8], language: Language, tree: &SyntaxTree) -> (e:
    FileEntry)
    ensures
        e.deep_view() == file_entry_spec(rel_path@, content@, language, tree@),
{
    let lang_functions = extract_functions(language, tree, content);
    let lang_imports = extract_imports(language, tree, content);
    let lang_exports = extract_exports(language, tree, content);
    let lang_classes = extract_classes(language, tree, content);
    let root = String::new();
    FileEntry {
        language: owned(language.as_str()),
        module: detect_module_name(rel_path, root.as_str()),
        hash: compute_file_hash(content),
        lines: count_lines(content),
        functions: convert_functions(&lang_functions),
        classes: convert_classes(&lang_classes),
        types: convert_types(&lang_classes, language),
        imports: convert_imports(&lang_imports),
        exports: convert_exports(&lang_exports),
        is_entry_point: is_entry_point(rel_path),
    }
}

/// The language under which a file is indexed, if it is indexed at all.
pub open spec fn indexed_language(rel_path: Seq<char>, project_has_cpp: bool) -> Option<Language> {
    match detect_language_spec(rel_path) {
        Some(base) => Some(
            if base == Language::C && project_has_cpp && is_shared_header(rel_path) {
                Language::Cpp
            } else {
                base
            },
        ),
        None => None,
    }
}

/// A header that C and C++ share is indexed as C in a project without
/// C++ sources, and as C++ in a project that holds one.
pub proof fn law_header_language(path: Seq<char>)
    requires
        is_shared_header(path),
    ensures
        indexed_language(path, false) == Some(Language::C),
        indexed_language(path, true) == Some(Language::Cpp),
{
    reveal_strlit("h");
    reveal_strlit("ts");
    reveal_strlit("tsx");
    reveal_strlit("js");
    reveal_strlit("jsx");
    reveal_strlit("mjs");
    reveal_strlit("cjs");
    reveal_strlit("py");
    reveal_strlit("go");
    reveal_strlit("rs");
    reveal_strlit("java");
    reveal_strlit("c");
    let ext = lowercase(crate::traverser::extension_of(path).unwrap());
    assert(ext == "h"@);
    assert(ext.len() == 1 && ext[0] == 'h');
    assert(crate::traverser::language_of_extension(ext) == Some(Language::C));
}

/// The tree of a file: what parsing its bytes with the grammar of its
/// language gives, where the path has a language.
pub open spec fn tree_for(rel_path: Seq<char>, content: Seq<u8>, project_has_cpp: bool) -> Option<
    TreeModel,
> {
    match indexed_language(rel_path, project_has_cpp) {
        Some(language) => Some(parsed_model(grammar_of_spec(language), content)),
        None => None,
    }
}

/// The record of a file where parsing it gave `tree`.
pub open spec fn entry_of(
    rel_path: Seq<char>,
    content: Seq<u8>,
    project_has_cpp: bool,
    tree: Option<TreeModel>,
) -> Option<FileEntryModel> {
    match indexed_language(rel_path, project_has_cpp) {
        Some(language) => match tree {
            Some(t) => Some(file_entry_spec(rel_path, content, language, t)),
            None => None,
        },
        None => None,
    }
}

/// Indexes one file: detects its language, parses it and builds its
/// record from the tree. There is a record exactly where the path has a
/// language.
pub fn index_file(rel_path: &str, content: &[u8], project_has_cpp: bool) -> (r: Option<FileEntry>)
    ensures
        r.deep_view() == entry_of(
            rel_path@,
            content@,
            project_has_cpp,
            tree_for(rel_path@, content@, project_has_cpp),
        ),
        r.is_some() == indexed_language(rel_path@, project_has_cpp).is_some(),
{
    match detect_language(rel_path) {
        Some(base) => {
            let language = effective_language(rel_path, base, project_has_cpp);
            match parse_source(language, content) {
                Some(tree) => Some(entry_from_tree(rel_path, content, language, &tree)),
                None => None,
            }
        },
        None => None,
    }
}

// ---------------------------------------------------------------------------
// A whole project
// ---------------------------------------------------------------------------

/// A source file as the scanner takes it: its path relative to the
/// project root and its bytes.
#[derive(Debug)]
pub struct SourceFile {
    pub rel_path: String,
    pub content: Vec<u8>,
}

/// The state of a graph without files and modules.
pub open spec fn empty_state() -> MergeState {
    MergeState { files: Map::empty(), lists: Map::empty() }
}

/// Whether `g` is the graph of the files `entries`: every entry is
/// installed in ascending path order into an empty graph, and summary and
/// edges are those of the result.
pub open spec fn is_graph_of(g: CodeGraph, entries: StrMap<FileEntry>) -> bool {
    &&& state_of(g) == merged(empty_state(), entries.keys(), file_models(entries), Seq::empty())
    &&& summary_exact(g)
    &&& edges_exact(g)
    &&& g.files.wf()
    &&& g.modules.wf()
}

/// Builds the graph of a project from the records of its files.
pub fn build_graph(project_name: &str, root_dir: &str, entries: StrMap<FileEntry>) -> (g: CodeGraph)
    ensures
        is_graph_of(g, entries),
        g.version@ == "1.0"@,
        g.project.name@ == project_name@,
        g.project.root@ == root_dir@,
        g.commit_hash.is_none(),
        g.config.exclude_patterns@.len() == 0,
        (forall|k: int| 0 <= k < entries.keys().len() ==> is_normal(#[trigger] entries.keys()[k]))
            ==> graph_invariants(g),
{
    let mut graph = create_empty_graph(project_name, root_dir);
    let removed: Vec<String> = Vec::new();
    proof {
        assert(removed.deep_view() =~= Seq::<Seq<char>>::empty());
        assert(state_of(graph).files =~= Map::<Seq<char>, FileEntryModel>::empty());
        assert(state_of(graph).lists =~= Map::<Seq<char>, Seq<Seq<char>>>::empty());
        assert(files_in_modules(graph));
        assert(modules_own_files(graph));
        assert(posix_paths(graph));
    }
    merge_graph_update(&mut graph, entries, &removed);
    graph
}

/// The files after the first `n` of the installations that build a
/// graph from nothing are the first `n` entries.
proof fn lemma_installed(entries: StrMap<FileEntry>, n: int)
    requires
        entries.wf(),
        0 <= n <= entries.keys().len(),
    ensures
        forall|p: Seq<char>|
            update_all(empty_state(), entries.keys(), file_models(entries), n).files.dom().contains(
                p,
            ) <==> entries.keys().take(n).contains(p),
        forall|i: int|
            0 <= i < n ==> update_all(
                empty_state(),
                entries.keys(),
                file_models(entries),
                n,
            ).files[#[trigger] entries.keys()[i]] == entries.values()[i].deep_view(),
    decreases n,
{
    let keys = entries.keys();
    let models = file_models(entries);
    if n > 0 {
        lemma_installed(entries, n - 1);
        let before = update_all(empty_state(), keys, models, n - 1).files;
        let after = update_all(empty_state(), keys, models, n).files;
        assert(after == before.insert(keys[n - 1], models[n - 1]));
        assert forall|p: Seq<char>| after.dom().contains(p) <==> keys.take(n).contains(p) by {
            lemma_contains_take_next(keys, n - 1, p);
        }
        assert forall|i: int| 0 <= i < n implies after[#[trigger] keys[i]]
            == entries.values()[i].deep_view() by {
            if i < n - 1 {
                entries.lemma_position(i);
                entries.lemma_position(n - 1);
            }
        }
    } else {
        assert(keys.take(0) =~= Seq::<Seq<char>>::empty());
    }
}

/// The files of the graph of `entries` are `entries`.
pub proof fn lemma_graph_files(g: CodeGraph, entries: StrMap<FileEntry>)
    requires
        entries.wf(),
        is_graph_of(g, entries),
    ensures
        file_map(g.files) == file_map(entries),
{
    let keys = entries.keys();
    let n = keys.len() as int;
    lemma_installed(entries, n);
    assert(keys.take(n) =~= keys);
    let built = update_all(empty_state(), keys, file_models(entries), n).files;
    assert(state_of(g).files == built);
    assert forall|p: Seq<char>| built.dom().contains(p) implies built[p] == file_map(entries)[p] by {
        assert(keys.take(n).contains(p));
        let i = keys.index_of(p);
        entries.lemma_position(i);
    }
    assert(built =~= file_map(entries));
}

/// Whether any of the sources is a C++ source.
pub open spec fn any_cpp(sources: Seq<SourceFile>) -> bool {
    exists|i: int| 0 <= i < sources.len() && is_cpp_source(#[trigger] sources[i].rel_path@)
}

/// Tests whether any of the sources is a C++ source.
pub fn sources_have_cpp(sources: &Vec<SourceFile>) -> (r: bool)
    ensures
        r == any_cpp(sources@),
{
    let mut paths: Vec<String> = Vec::new();
    let mut i: usize = 0;
    while i < sources.len()
        invariant
            i <= sources.len(),
            paths.len() == i,
            forall|j: int| 0 <= j < i ==> (#[trigger] paths@[j])@ == sources@[j].rel_path@,
        decreases sources.len() - i,
    {
        paths.push(sources[i].rel_path.clone());
        i += 1;
    }
    let r = has_cpp_source_files(&paths);
    proof {
        if r {
            let w = choose|w: int| 0 <= w < paths.len() && is_cpp_source(#[trigger] paths@[w]@);
            assert(is_cpp_source(sources@[w].rel_path@));
        }
        if any_cpp(sources@) {
            let w = choose|w: int|
                0 <= w < sources.len() && is_cpp_source(#[trigger] sources@[w].rel_path@);
            assert(is_cpp_source(paths@[w]@));
        }
    }
    r
}

/// The record that a source gives where parsing it gave `tree`: none
/// for a source without a language or without a tree. The record stands
/// under the path of the source in normal form.
pub open spec fn record_of(source: SourceFile, tree: Option<TreeModel>, project_has_cpp: bool) -> Option<
    FileEntryModel,
> {
    entry_of(indexed_path(source.rel_path@), source.content@, project_has_cpp, tree)
}

/// The tree of a source: what parsing it gives.
pub open spec fn parsed_for(source: SourceFile, project_has_cpp: bool) -> Option<TreeModel> {
    tree_for(indexed_path(source.rel_path@), source.content@, project_has_cpp)
}

/// The trees of the sources: for each what parsing it gives.
pub open spec fn parsed_trees(sources: Seq<SourceFile>, project_has_cpp: bool) -> Seq<
    Option<TreeModel>,
> {
    Seq::new(sources.len(), |i: int| parsed_for(sources[i], project_has_cpp))
}

/// The records of the first `n` sources by path, where `trees` holds
/// what parsing each source gave. Of the sources that share a path the
/// last one that has a language decides.
pub open spec fn records_upto(
    sources: Seq<SourceFile>,
    trees: Seq<Option<TreeModel>>,
    project_has_cpp: bool,
    n: int,
) -> Map<Seq<char>, FileEntryModel>
    decreases n,
{
    if n <= 0 {
        Map::empty()
    } else {
        let rest = records_upto(sources, trees, project_has_cpp, n - 1);
        let path = indexed_path(sources[n - 1].rel_path@);
        if detect_language_spec(path).is_some() {
            match record_of(sources[n - 1], trees[n - 1], project_has_cpp) {
                Some(e) => rest.insert(path, e),
                None => rest.remove(path),
            }
        } else {
            rest
        }
    }
}

/// The records of all sources by path.
pub open spec fn records_of(
    sources: Seq<SourceFile>,
    trees: Seq<Option<TreeModel>>,
    project_has_cpp: bool,
) -> Map<Seq<char>, FileEntryModel> {
    records_upto(sources, trees, project_has_cpp, sources.len() as int)
}

/// The records of the first `n` sources depend on what parsing gave for
/// these alone.
pub proof fn lemma_records_frame(
    sources: Seq<SourceFile>,
    a: Seq<Option<TreeModel>>,
    b: Seq<Option<TreeModel>>,
    project_has_cpp: bool,
    n: int,
)
    requires
        n <= a.len(),
        n <= b.len(),
        forall|i: int| 0 <= i < n ==> a[i] == b[i],
    ensures
        records_upto(sources, a, project_has_cpp, n) == records_upto(sources, b, project_has_cpp, n),
    decreases n,
{
    if n > 0 {
        lemma_records_frame(sources, a, b, project_has_cpp, n - 1);
    }
}

/// Every record stands under a path in normal form.
pub proof fn lemma_records_posix(
    sources: Seq<SourceFile>,
    trees: Seq<Option<TreeModel>>,
    project_has_cpp: bool,
    n: int,
    path: Seq<char>,
)
    requires
        records_upto(sources, trees, project_has_cpp, n).dom().contains(path),
    ensures
        is_normal(path),
    decreases n,
{
    if n > 0 {
        if indexed_path(sources[n - 1].rel_path@) == path {
            lemma_indexed_normal(sources[n - 1].rel_path@);
        } else {
            lemma_records_posix(sources, trees, project_has_cpp, n - 1, path);
        }
    }
}

/// Puts the record of a file under `path`, where parsing gave a tree,
/// and clears the path where it gave none.
fn place(
    entries: &mut StrMap<FileEntry>,
    path: String,
    content: &[u8],
    language: Language,
    tree: Option<&SyntaxTree>,
)
    ensures
        final(entries).wf(),
        file_map(*final(entries)) == match tree {
            Some(t) => file_map(*old(entries)).insert(
                path@,
                file_entry_spec(path@, content@, language, t@),
            ),
            None => file_map(*old(entries)).remove(path@),
        },
{
    let ghost before = *entries;
    let ghost key = path@;
    match tree {
        Some(t) => {
            let e = entry_from_tree(path.as_str(), content, language, t);
            entries.insert(path, e);
            proof {
                lemma_file_map_insert(before, *entries, key, e);
            }
        },
        None => {
            entries.remove(path.as_str());
            proof {
                lemma_file_map_remove(before, *entries, key);
            }
        },
    }
}

/// Builds the records of the sources from what parsing each of them
/// gave. A source without a language is left out, and so is one without
/// a tree.
pub fn index_parsed(
    sources: &Vec<SourceFile>,
    trees: &Vec<Option<SyntaxTree>>,
    project_has_cpp: bool,
) -> (entries: StrMap<FileEntry>)
    requires
        trees.len() == sources.len(),
    ensures
        entries.wf(),
        file_map(entries) == records_of(sources@, trees.deep_view(), project_has_cpp),
{
    let mut entries: StrMap<FileEntry> = StrMap::new();
    let mut i: usize = 0;
    proof {
        assert(file_map(entries) =~= Map::<Seq<char>, FileEntryModel>::empty());
    }
    while i < sources.len()
        invariant
            i <= sources.len(),
            trees.len() == sources.len(),
            entries.wf(),
            file_map(entries) == records_upto(
                sources@,
                trees.deep_view(),
                project_has_cpp,
                i as int,
            ),
        decreases sources.len() - i,
    {
        let source = &sources[i];
        let path = normalize_path(source.rel_path.as_str());
        proof {
            assert(trees.deep_view()[i as int] == trees@[i as int].deep_view());
        }
        match detect_language(path.as_str()) {
            Some(base) => {
                let language = effective_language(path.as_str(), base, project_has_cpp);
                place(&mut entries, path, source.content.as_slice(), language, trees[i].as_ref());
            },
            None => {},
        }
        i += 1;
    }
    entries
}

/// Indexes the sources of a project one after the other: parses each
/// source that has a language and builds its record from the tree. A
/// source without a language is left out; where two sources share a path
/// the later one stands.
pub fn index_sources(sources: &Vec<SourceFile>, project_has_cpp: bool) -> (entries: StrMap<
    FileEntry,
>)
    ensures
        entries.wf(),
        file_map(entries) == records_of(
            sources@,
            parsed_trees(sources@, project_has_cpp),
            project_has_cpp,
        ),
{
    let mut entries: StrMap<FileEntry> = StrMap::new();
    let ghost trees = parsed_trees(sources@, project_has_cpp);
    let mut i: usize = 0;
    proof {
        assert(file_map(entries) =~= Map::<Seq<char>, FileEntryModel>::empty());
    }
    while i < sources.len()
        invariant
            i <= sources.len(),
            trees == parsed_trees(sources@, project_has_cpp),
            entries.wf(),
            file_map(entries) == records_upto(sources@, trees, project_has_cpp, i as int),
        decreases sources.len() - i,
    {
        let source = &sources[i];
        let path = normalize_path(source.rel_path.as_str());
        proof {
            assert(trees[i as int] == parsed_for(sources@[i as int], project_has_cpp));
        }
        match detect_language(path.as_str()) {
            Some(base) => {
                let language = effective_language(path.as_str(), base, project_has_cpp);
                let parsed = parse_source(language, source.content.as_slice());
                place(&mut entries, path, source.content.as_slice(), language, parsed.as_ref());
            },
            None => {},
        }
        i += 1;
    }
    entries
}

/// Parses every source: there is a tree for exactly the sources whose
/// path has a language, and it is the tree that the parser gives for the
/// bytes of the source.
pub fn parse_sources(sources: &Vec<SourceFile>, project_has_cpp: bool) -> (trees: Vec<
    Option<SyntaxTree>,
>)
    ensures
        trees.deep_view() == parsed_trees(sources@, project_has_cpp),
{
    let mut trees: Vec<Option<SyntaxTree>> = Vec::new();
    let mut i: usize = 0;
    while i < sources.len()
        invariant
            i <= sources.len(),
            trees.len() == i,
            forall|j: int|
                0 <= j < i ==> (#[trigger] trees@[j]).deep_view() == parsed_for(
                    sources@[j],
                    project_has_cpp,
                ),
        decreases sources.len() - i,
    {
        let source = &sources[i];
        let path = normalize_path(source.rel_path.as_str());
        let parsed = match detect_language(path.as_str()) {
            Some(base) => {
                let language = effective_language(path.as_str(), base, project_has_cpp);
                parse_source(language, source.content.as_slice())
            },
            None => None,
        };
        let ghost seen = trees@;
        trees.push(parsed);
        proof {
            assert forall|j: int| 0 <= j < i + 1 implies (#[trigger] trees@[j]).deep_view()
                == parsed_for(sources@[j], project_has_cpp) by {
                if j < i {
                    assert(trees@[j] == seen[j]);
                }
            }
        }
        i += 1;
    }
    proof {
        assert(trees.deep_view() =~= parsed_trees(sources@, project_has_cpp));
    }
    trees
}

/// What a scan writes beside files and modules: the version of the
/// graph, the project, no commit and no exclusion patterns.
pub open spec fn scan_identity(g: CodeGraph, project_name: Seq<char>, root_dir: Seq<char>) -> bool {
    &&& g.version@ == "1.0"@
    &&& g.project.name@ == project_name
    &&& g.project.root@ == root_dir
    &&& g.commit_hash.is_none()
    &&& g.config.exclude_patterns@.len() == 0
}

/// Whether `g` is the graph of the sources, where `trees` holds what
/// parsing each source gave.
pub open spec fn is_scan_of(
    g: CodeGraph,
    sources: Seq<SourceFile>,
    trees: Seq<Option<TreeModel>>,
) -> bool {
    exists|entries: StrMap<FileEntry>|
        entries.wf() && file_map(entries) == records_of(sources, trees, any_cpp(sources))
            && #[trigger] is_graph_of(g, entries)
}

/// The paths of valid records of sources are in normal form.
proof fn lemma_index_posix(
    entries: StrMap<FileEntry>,
    sources: Seq<SourceFile>,
    trees: Seq<Option<TreeModel>>,
    project_has_cpp: bool,
)
    requires
        entries.wf(),
        forall|p: Seq<char>| #[trigger]
            file_map(entries).dom().contains(p) ==> records_of(
                sources,
                trees,
                project_has_cpp,
            ).dom().contains(p),
    ensures
        forall|k: int| 0 <= k < entries.keys().len() ==> is_normal(#[trigger] entries.keys()[k]),
{
    assert forall|k: int| 0 <= k < entries.keys().len() implies is_normal(
        #[trigger] entries.keys()[k],
    ) by {
        let p = entries.keys()[k];
        assert(entries.has(p));
        assert(file_map(entries).dom().contains(p));
        lemma_records_posix(sources, trees, project_has_cpp, sources.len() as int, p);
    }
}

/// Builds the graph of a project from its sources and from what parsing
/// each of them gave. Files are indexed under their path in normal
/// form; `.h` files count as C++ once any source is C++.
pub fn scan_parsed(
    project_name: &str,
    root_dir: &str,
    sources: &Vec<SourceFile>,
    trees: &Vec<Option<SyntaxTree>>,
) -> (g: CodeGraph)
    requires
        trees.len() == sources.len(),
    ensures
        is_scan_of(g, sources@, trees.deep_view()),
        scan_identity(g, project_name@, root_dir@),
        graph_invariants(g),
{
    let has_cpp = sources_have_cpp(sources);
    let entries = index_parsed(sources, trees, has_cpp);
    proof {
        lemma_index_posix(entries, sources@, trees.deep_view(), has_cpp);
    }
    let g = build_graph(project_name, root_dir, entries);
    proof {
        assert(entries.wf() && file_map(entries) == records_of(
            sources@,
            trees.deep_view(),
            any_cpp(sources@),
        ) && is_graph_of(g, entries));
    }
    g
}

/// Scans a project: parses and indexes every source file and builds the
/// graph of the records. Files are indexed under their path in normal
/// form; `.h` files count as C++ once any source is C++. The
/// graph is that of the sources and of the trees that the parser gives
/// for them.
pub fn scan_sources(project_name: &str, root_dir: &str, sources: &Vec<SourceFile>) -> (g:
    CodeGraph)
    ensures
        is_scan_of(g, sources@, parsed_trees(sources@, any_cpp(sources@))),
        scan_identity(g, project_name@, root_dir@),
        graph_invariants(g),
{
    let has_cpp = sources_have_cpp(sources);
    let entries = index_sources(sources, has_cpp);
    let ghost trees = parsed_trees(sources@, has_cpp);
    proof {
        lemma_index_posix(entries, sources@, trees, has_cpp);
    }
    let g = build_graph(project_name, root_dir, entries);
    proof {
        assert(entries.wf() && file_map(entries) == records_of(sources@, trees, any_cpp(sources@))
            && is_graph_of(g, entries));
    }
    g
}

// ---------------------------------------------------------------------------
// Parsing one file on its own
// ---------------------------------------------------------------------------

/// The facts of one parsed file, as records of the graph.
#[derive(Debug)]
pub struct ParseResult {
    pub functions: Vec<FunctionInfo>,
    pub imports: Vec<ImportInfo>,
    pub exports: Vec<String>,
    pub classes: Vec<ClassInfo>,
    pub types: Vec<TypeInfo>,
    pub lines: u32,
}

/// Why a file could not be parsed.
#[derive(Debug, Clone, Copy, PartialEq, Eq, Structural)]
pub enum ParseError {
    /// The parser gave no tree.
    NoTree,
}

impl ParseError {
    /// The message of the error.
    pub fn message(&self) -> (out: String)
        ensures
            out@ == "the parser gave no tree"@,
    {
        owned("the parser gave no tree")
    }
}

/// Whether `r` holds the facts of a file of `language` whose parse tree
/// is `t`.
pub open spec fn is_parse_of(r: ParseResult, language: Language, source: Seq<u8>, t: TreeModel) -> bool {
    &&& r.functions.deep_view() == convert_functions_spec(functions_spec(language, t, source))
    &&& r.imports.deep_view() == convert_imports_spec(imports_spec(language, t, source))
    &&& r.exports.deep_view() == convert_exports_spec(exports_spec(language, t, source))
    &&& r.classes.deep_view() == convert_classes_spec(classes_spec(language, t, source))
    &&& r.types.deep_view() == convert_types_spec(classes_spec(language, t, source), language)
    &&& r.lines == line_count(source)
}

/// The facts of a parsed file.
pub fn facts_of_tree(language: Language, source: &[u8], tree: &SyntaxTree) -> (r: ParseResult)
    ensures
        is_parse_of(r, language, source@, tree@),
{
    let lang_functions = extract_functions(language, tree, source);
    let lang_imports = extract_imports(language, tree, source);
    let lang_exports = extract_exports(language, tree, source);
    let lang_classes = extract_classes(language, tree, source);
    ParseResult {
        functions: convert_functions(&lang_functions),
        imports: convert_imports(&lang_imports),
        exports: convert_exports(&lang_exports),
        classes: convert_classes(&lang_classes),
        types: convert_types(&lang_classes, language),
        lines: count_lines(source),
    }
}

/// Parses one source file of `language` and extracts its facts. It
/// always succeeds, with the facts of the tree that the parser gives.
pub fn parse_file(file_path: &str, language: Language, source: &[u8]) -> (r: Result<
    ParseResult,
    ParseError,
>)
    ensures
        match r {
            Ok(p) => is_parse_of(
                p,
                language,
                source@,
                parsed_model(grammar_of_spec(language), source@),
            ),
            Err(e) => false,
        },
{
    match parse_source(language, source) {
        Some(tree) => Ok(facts_of_tree(language, source, &tree)),
        None => Err(ParseError::NoTree),
    }
}

// ---------------------------------------------------------------------------
// Updating a graph
// ---------------------------------------------------------------------------

/// The hashes of the first `n` sources by path in normal form: one for
/// each source that has a language. Where two
/// sources share a path the later one stands.
pub open spec fn source_hashes(sources: Seq<SourceFile>, n: int) -> Map<Seq<char>, Seq<char>>
    decreases n,
{
    if n <= 0 {
        Map::empty()
    } else {
        let path = indexed_path(sources[n - 1].rel_path@);
        if detect_language_spec(path).is_some() {
            source_hashes(sources, n - 1).insert(path, file_hash(sources[n - 1].content@))
        } else {
            source_hashes(sources, n - 1)
        }
    }
}

/// The position of the source that stands for each path among the
/// first `n` sources.
pub open spec fn source_positions(sources: Seq<SourceFile>, n: int) -> Map<Seq<char>, int>
    decreases n,
{
    if n <= 0 {
        Map::empty()
    } else {
        let path = indexed_path(sources[n - 1].rel_path@);
        if detect_language_spec(path).is_some() {
            source_positions(sources, n - 1).insert(path, n - 1)
        } else {
            source_positions(sources, n - 1)
        }
    }
}

/// A map of positions seen as a map of integers.
pub open spec fn positions_view(m: StrMap<usize>) -> Map<Seq<char>, int> {
    Map::new(|k: Seq<char>| m.has(k), |k: Seq<char>| m.value_of(k) as int)
}

/// Every position that stands for a path points at a source of that
/// path.
pub proof fn lemma_source_positions(sources: Seq<SourceFile>, n: int, path: Seq<char>)
    requires
        n <= sources.len(),
        source_positions(sources, n).dom().contains(path),
    ensures
        0 <= source_positions(sources, n)[path] < n,
        indexed_path(sources[source_positions(sources, n)[path]].rel_path@) == path,
        detect_language_spec(path).is_some(),
    decreases n,
{
    if n > 0 {
        let p = indexed_path(sources[n - 1].rel_path@);
        if !(detect_language_spec(p).is_some() && p == path) {
            lemma_source_positions(sources, n - 1, path);
        }
    }
}

/// The current hashes of the sources, and for each path the position of
/// its source.
pub fn current_hashes(sources: &Vec<SourceFile>) -> (r: (StrMap<String>, StrMap<usize>))
    ensures
        r.0.wf(),
        r.1.wf(),
        table_view(r.0) == source_hashes(sources@, sources@.len() as int),
        positions_view(r.1) == source_positions(sources@, sources@.len() as int),
{
    let mut hashes: StrMap<String> = StrMap::new();
    let mut positions: StrMap<usize> = StrMap::new();
    let mut i: usize = 0;
    proof {
        assert(table_view(hashes) =~= Map::<Seq<char>, Seq<char>>::empty());
        assert(positions_view(positions) =~= Map::<Seq<char>, int>::empty());
    }
    while i < sources.len()
        invariant
            i <= sources.len(),
            hashes.wf(),
            positions.wf(),
            table_view(hashes) == source_hashes(sources@, i as int),
            positions_view(positions) == source_positions(sources@, i as int),
        decreases sources.len() - i,
    {
        let source = &sources[i];
        let path = normalize_path(source.rel_path.as_str());
        if detect_language(path.as_str()).is_some() {
            let hash = compute_file_hash(source.content.as_slice());
            let ghost h0 = hashes;
            let ghost held = positions;
            let ghost key = path@;
            hashes.insert(path.clone(), hash);
            positions.insert(path, i);
            proof {
                assert forall|k: Seq<char>| table_view(hashes).dom().contains(k) <==> table_view(
                    h0,
                ).insert(key, hash@).dom().contains(k) by {
                    assert(hashes.as_map().dom().contains(k) <==> hashes.has(k));
                    assert(h0.as_map().dom().contains(k) <==> h0.has(k));
                }
                assert forall|k: Seq<char>| table_view(hashes).dom().contains(k) implies table_view(
                    hashes,
                )[k] == table_view(h0).insert(key, hash@)[k] by {
                    assert(hashes.as_map().dom().contains(k));
                    assert(hashes.as_map()[k] == hashes.value_of(k));
                    if k != key {
                        assert(h0.as_map().dom().contains(k));
                        assert(h0.as_map()[k] == h0.value_of(k));
                    }
                }
                assert(table_view(hashes) =~= table_view(h0).insert(key, hash@));
                assert forall|k: Seq<char>|
                    positions_view(positions).dom().contains(k) <==> positions_view(held).insert(
                        key,
                        i as int,
                    ).dom().contains(k) by {
                    assert(positions.as_map().dom().contains(k) <==> positions.has(k));
                    assert(held.as_map().dom().contains(k) <==> held.has(k));
                }
                assert forall|k: Seq<char>|
                    positions_view(positions).dom().contains(k) implies positions_view(
                    positions,
                )[k] == positions_view(held).insert(key, i as int)[k] by {
                    assert(positions.as_map().dom().contains(k));
                    assert(positions.as_map()[k] == positions.value_of(k));
                    if k != key {
                        assert(held.as_map().dom().contains(k));
                        assert(held.as_map()[k] == held.value_of(k));
                    }
                }
                assert(positions_view(positions) =~= positions_view(held).insert(key, i as int));
            }
        }
        i += 1;
    }
    (hashes, positions)
}

/// The hash that a graph records for each of its files, by path.
pub open spec fn hashes_of(g: CodeGraph) -> Map<Seq<char>, Seq<char>> {
    Map::new(|p: Seq<char>| g.files.has(p), |p: Seq<char>| g.files.value_of(p).hash@)
}

/// The hashes that a graph records for its files.
pub fn graph_hashes(graph: &CodeGraph) -> (hashes: StrMap<String>)
    ensures
        hashes.wf(),
        hashes.keys() == graph.files.keys(),
        hashes.values().len() == graph.files.values().len(),
        forall|i: int|
            0 <= i < graph.files.values().len() ==> (#[trigger] hashes.values()[i])@
                == graph.files.values()[i].hash@,
        table_view(hashes) == hashes_of(*graph),
{
    let names = graph.files.key_list();
    let mut values: Vec<String> = Vec::new();
    let n = graph.files.len();
    let mut i: usize = 0;
    while i < n
        invariant
            i <= n,
            n == graph.files.values().len(),
            values.len() == i,
            forall|j: int| 0 <= j < i ==> (#[trigger] values@[j])@ == graph.files.values()[j].hash@,
        decreases n - i,
    {
        values.push(graph.files.value_at(i).hash.clone());
        i += 1;
    }
    let hashes = StrMap::from_sorted(names, values);
    proof {
        assert forall|p: Seq<char>| #[trigger] hashes.has(p) implies hashes.value_of(p)@
            == graph.files.value_of(p).hash@ by {
            let k = hashes.keys().index_of(p);
            hashes.lemma_position(k);
            graph.files.lemma_position(k);
        }
        assert(table_view(hashes) =~= hashes_of(*graph));
    }
    hashes
}

/// The record that is stored beside a graph: the time of storing, the
/// commit of the graph, no duration, and the hashes that the graph
/// records.
pub fn meta_of(graph: &CodeGraph, now: String) -> (meta: MetaInfo)
    ensures
        meta.last_scan_at == now,
        meta.commit_hash.deep_view() == graph.commit_hash.deep_view(),
        meta.scan_duration == 0,
        meta.file_hashes.wf(),
        meta.file_hashes.keys() == graph.files.keys(),
        table_view(meta.file_hashes) == hashes_of(*graph),
{
    let commit_hash = match &graph.commit_hash {
        Some(c) => Some(c.clone()),
        None => None,
    };
    MetaInfo { last_scan_at: now, commit_hash, scan_duration: 0, file_hashes: graph_hashes(graph) }
}

/// The hashes that an update compares the sources with: those of the
/// stored record, or those of the graph where no record is at hand or
/// the record holds no hash.
pub fn recorded_hashes(meta: Option<MetaInfo>, graph: &CodeGraph) -> (hashes: StrMap<String>)
    ensures
        hashes.wf(),
        match meta {
            Some(m) if m.file_hashes.keys().len() > 0 => hashes == m.file_hashes,
            _ => hashes.keys() == graph.files.keys() && table_view(hashes) == hashes_of(*graph),
        },
{
    match meta {
        Some(m) => {
            if m.file_hashes.len() > 0 {
                m.file_hashes
            } else {
                graph_hashes(graph)
            }
        },
        None => graph_hashes(graph),
    }
}

/// The record under a path is that of the source that stands for the
/// path.
pub proof fn lemma_record_at(
    sources: Seq<SourceFile>,
    trees: Seq<Option<TreeModel>>,
    project_has_cpp: bool,
    n: int,
    path: Seq<char>,
)
    ensures
        records_upto(sources, trees, project_has_cpp, n).dom().contains(path) <==> (
        source_positions(sources, n).dom().contains(path) && record_of(
            sources[source_positions(sources, n)[path]],
            trees[source_positions(sources, n)[path]],
            project_has_cpp,
        ).is_some()),
        records_upto(sources, trees, project_has_cpp, n).dom().contains(path) ==> Some(
            records_upto(sources, trees, project_has_cpp, n)[path],
        ) == record_of(
            sources[source_positions(sources, n)[path]],
            trees[source_positions(sources, n)[path]],
            project_has_cpp,
        ),
    decreases n,
{
    if n > 0 {
        let p = indexed_path(sources[n - 1].rel_path@);
        if !(detect_language_spec(p).is_some() && p == path) {
            lemma_record_at(sources, trees, project_has_cpp, n - 1, path);
        }
    }
}

/// The paths that a change set lists as added or modified.
pub open spec fn changed_paths(cs: ChangeSet) -> Set<Seq<char>> {
    Set::new(
        |p: Seq<char>| cs.added.deep_view().contains(p) || cs.modified.deep_view().contains(p),
    )
}

/// Whether a change set lists nothing as added, modified or removed.
pub open spec fn nothing_changed(cs: ChangeSet) -> bool {
    cs.added@.len() == 0 && cs.modified@.len() == 0 && cs.removed@.len() == 0
}

/// Whether `after` is what an update with the change set `cs` makes of
/// `before`, where `trees` holds what parsing each source gave: nothing,
/// where the change set is empty; else the merge of the records of the
/// added and modified paths and of the removed paths, stamped with
/// `now`, with version, project, commit and exclusion patterns as they
/// were.
pub open spec fn is_update_of(
    after: CodeGraph,
    before: CodeGraph,
    cs: ChangeSet,
    sources: Seq<SourceFile>,
    trees: Seq<Option<TreeModel>>,
    now: String,
) -> bool {
    if nothing_changed(cs) {
        after == before
    } else {
        &&& after.scanned_at == now
        &&& after.version == before.version
        &&& after.project == before.project
        &&& after.commit_hash == before.commit_hash
        &&& after.config.exclude_patterns == before.config.exclude_patterns
        &&& summary_exact(after)
        &&& edges_exact(after)
        &&& exists|updated: StrMap<FileEntry>|
            updated.wf() && file_map(updated) == records_of(
                sources,
                trees,
                any_cpp(sources),
            ).restrict(changed_paths(cs)) && #[trigger] state_of(after) == merged(
                state_of(before),
                updated.keys(),
                file_models(updated),
                cs.removed.deep_view(),
            )
    }
}

/// Whether `cs` is the change set that leads from the recorded hashes
/// to the current hashes of the sources.
pub open spec fn is_changeset_to(
    cs: ChangeSet,
    old_hashes: StrMap<String>,
    sources: Seq<SourceFile>,
) -> bool {
    exists|new_hashes: StrMap<String>|
        new_hashes.wf() && table_view(new_hashes) == source_hashes(
            sources,
            sources.len() as int,
        ) && #[trigger] is_changeset(cs, old_hashes, new_hashes)
}

/// The strings of `a`, then those of `b`.
fn both_lists(a: &Vec<String>, b: &Vec<String>) -> (out: Vec<String>)
    ensures
        out.deep_view() == a.deep_view() + b.deep_view(),
{
    let mut out = clone_strings(a);
    let mut i: usize = 0;
    proof {
        assert(out.deep_view() =~= a.deep_view() + b.deep_view().take(0));
    }
    while i < b.len()
        invariant
            i <= b.len(),
            out.deep_view() == a.deep_view() + b.deep_view().take(i as int),
        decreases b.len() - i,
    {
        let ghost before = out.deep_view();
        out.push(b[i].clone());
        proof {
            assert(out.deep_view() =~= before.push(b.deep_view()[i as int]));
            assert(b.deep_view().take(i + 1) =~= b.deep_view().take(i as int).push(
                b.deep_view()[i as int],
            ));
            assert(out.deep_view() =~= a.deep_view() + b.deep_view().take(i + 1));
        }
        i += 1;
    }
    proof {
        assert(b.deep_view().take(b.len() as int) =~= b.deep_view());
    }
    out
}

/// The set of the strings of a sequence.
pub open spec fn among(paths: Seq<Seq<char>>) -> Set<Seq<char>> {
    Set::new(|p: Seq<char>| paths.contains(p))
}

/// Builds the records of the sources that stand for `paths`, from what
/// parsing these sources gave.
fn index_changed(
    paths: &Vec<String>,
    sources: &Vec<SourceFile>,
    trees: &Vec<Option<SyntaxTree>>,
    positions: &StrMap<usize>,
    project_has_cpp: bool,
) -> (updated: StrMap<FileEntry>)
    requires
        trees.len() == sources.len(),
        positions_view(*positions) == source_positions(sources@, sources@.len() as int),
    ensures
        updated.wf(),
        file_map(updated) == records_of(sources@, trees.deep_view(), project_has_cpp).restrict(
            among(paths.deep_view()),
        ),
{
    let mut updated: StrMap<FileEntry> = StrMap::new();
    let ghost all = records_of(sources@, trees.deep_view(), project_has_cpp);
    let ghost names = paths.deep_view();
    let mut j: usize = 0;
    proof {
        assert(file_map(updated) =~= all.restrict(among(names.take(0))));
    }
    while j < paths.len()
        invariant
            j <= paths.len(),
            trees.len() == sources.len(),
            names == paths.deep_view(),
            all == records_of(sources@, trees.deep_view(), project_has_cpp),
            positions_view(*positions) == source_positions(sources@, sources@.len() as int),
            updated.wf(),
            file_map(updated) == all.restrict(among(names.take(j as int))),
        decreases paths.len() - j,
    {
        let path = &paths[j];
        let ghost held = file_map(updated);
        proof {
            assert(names[j as int] == path@);
            lemma_record_at(sources@, trees.deep_view(), project_has_cpp, sources@.len() as int, path@);
            assert forall|p: Seq<char>|
                among(names.take(j + 1)).contains(p) <==> among(names.take(j as int)).insert(
                    path@,
                ).contains(p) by {
                lemma_contains_take_next(names, j as int, p);
            }
            assert(among(names.take(j + 1)) =~= among(names.take(j as int)).insert(path@));
        }
        let at: Option<usize> = match positions.get(path.as_str()) {
            Some(at) => Some(*at),
            None => None,
        };
        proof {
            assert(positions_view(*positions).dom().contains(path@) <==> positions.has(path@));
        }
        match at {
            Some(at) => {
                proof {
                    assert(positions_view(*positions)[path@] == at as int);
                    lemma_source_positions(sources@, sources@.len() as int, path@);
                }
                let source = &sources[at];
                match detect_language(path.as_str()) {
                    Some(base) => {
                        let language = effective_language(path.as_str(), base, project_has_cpp);
                        place(
                            &mut updated,
                            path.clone(),
                            source.content.as_slice(),
                            language,
                            trees[at].as_ref(),
                        );
                        proof {
                            match trees.deep_view()[at as int] {
                                Some(t) => {
                                    assert(all.dom().contains(path@));
                                    assert(file_map(updated) =~= all.restrict(
                                        among(names.take(j + 1)),
                                    ));
                                },
                                None => {
                                    assert(!all.dom().contains(path@));
                                    assert(file_map(updated) =~= all.restrict(
                                        among(names.take(j + 1)),
                                    ));
                                },
                            }
                        }
                    },
                    None => {},
                }
            },
            None => {
                proof {
                    assert(!all.dom().contains(path@));
                    assert(held =~= all.restrict(among(names.take(j + 1))));
                }
            },
        }
        j += 1;
    }
    proof {
        assert(names.take(paths.len() as int) =~= names);
    }
    updated
}

/// Whether source `i` stands for a changed path: it is the last source
/// of its path that has a language, and the change set lists the path as
/// added or modified.
pub open spec fn stands_changed(sources: Seq<SourceFile>, cs: ChangeSet, i: int) -> bool {
    let path = indexed_path(sources[i].rel_path@);
    let positions = source_positions(sources, sources.len() as int);
    positions.dom().contains(path) && positions[path] == i && changed_paths(cs).contains(path)
}

/// The trees that an update parses: for each source that stands for a
/// changed path what parsing it gives, and none for every other source.
pub open spec fn changed_trees(
    sources: Seq<SourceFile>,
    cs: ChangeSet,
    project_has_cpp: bool,
) -> Seq<Option<TreeModel>> {
    Seq::new(
        sources.len(),
        |i: int|
            if stands_changed(sources, cs, i) {
                parsed_for(sources[i], project_has_cpp)
            } else {
                None
            },
    )
}

/// Merges the records of the added and modified paths into the graph,
/// drops the removed paths and stamps the graph with `now`.
fn apply_changes(
    graph: &mut CodeGraph,
    sources: &Vec<SourceFile>,
    trees: &Vec<Option<SyntaxTree>>,
    cs: &ChangeSet,
    positions: &StrMap<usize>,
    now: String,
)
    requires
        trees.len() == sources.len(),
        positions_view(*positions) == source_positions(sources@, sources@.len() as int),
        !nothing_changed(*cs),
    ensures
        is_update_of(*final(graph), *old(graph), *cs, sources@, trees.deep_view(), now),
        graph_invariants(*old(graph)) ==> graph_invariants(*final(graph)),
{
    graph.files.valid();
    let has_cpp = sources_have_cpp(sources);
    let changed = both_lists(&cs.added, &cs.modified);
    let updated = index_changed(&changed, sources, trees, positions, has_cpp);
    proof {
        let a = cs.added.deep_view();
        let m = cs.modified.deep_view();
        assert forall|p: Seq<char>| among(a + m).contains(p) <==> changed_paths(*cs).contains(
            p,
        ) by {
            if a.contains(p) {
                let w = choose|w: int| 0 <= w < a.len() && a[w] == p;
                assert((a + m)[w] == p);
            }
            if m.contains(p) {
                let w = choose|w: int| 0 <= w < m.len() && m[w] == p;
                assert((a + m)[a.len() + w] == p);
            }
            if (a + m).contains(p) {
                let w = choose|w: int| 0 <= w < (a + m).len() && (a + m)[w] == p;
                if w < a.len() {
                    assert(a[w] == p);
                } else {
                    assert(m[w - a.len()] == p);
                }
            }
        }
        assert(among(a + m) =~= changed_paths(*cs));
        lemma_index_posix(updated, sources@, trees.deep_view(), has_cpp);
    }
    let ghost before = *graph;
    merge_graph_update(graph, updated, &cs.removed);
    graph.scanned_at = now;
    proof {
        assert(updated.wf() && file_map(updated) == records_of(
            sources@,
            trees.deep_view(),
            any_cpp(sources@),
        ).restrict(changed_paths(*cs)) && state_of(*graph) == merged(
            state_of(before),
            updated.keys(),
            file_models(updated),
            cs.removed.deep_view(),
        ));
    }
}

/// Parses the sources that stand for a path that the change set lists
/// as added or modified; `None` stands for every other source.
fn parse_changed(
    sources: &Vec<SourceFile>,
    positions: &StrMap<usize>,
    cs: &ChangeSet,
    project_has_cpp: bool,
) -> (trees: Vec<Option<SyntaxTree>>)
    requires
        positions_view(*positions) == source_positions(sources@, sources@.len() as int),
    ensures
        trees.len() == sources.len(),
        trees.deep_view() == changed_trees(sources@, *cs, project_has_cpp),
{
    let mut trees: Vec<Option<SyntaxTree>> = Vec::new();
    let mut i: usize = 0;
    while i < sources.len()
        invariant
            i <= sources.len(),
            trees.len() == i,
            positions_view(*positions) == source_positions(sources@, sources@.len() as int),
            forall|j: int|
                0 <= j < i ==> (#[trigger] trees@[j]).deep_view() == changed_trees(
                    sources@,
                    *cs,
                    project_has_cpp,
                )[j],
        decreases sources.len() - i,
    {
        let source = &sources[i];
        let path = normalize_path(source.rel_path.as_str());
        let stands = match positions.get(path.as_str()) {
            Some(at) => *at == i,
            None => false,
        };
        let changed = contains_string(&cs.added, path.as_str()) || contains_string(
            &cs.modified,
            path.as_str(),
        );
        proof {
            assert(positions_view(*positions).dom().contains(path@) <==> positions.has(path@));
            if positions.has(path@) {
                assert(positions_view(*positions)[path@] == positions.value_of(path@) as int);
            }
            assert(stands && changed <==> stands_changed(sources@, *cs, i as int));
        }
        let parsed = if stands && changed {
            match detect_language(path.as_str()) {
                Some(base) => {
                    let language = effective_language(path.as_str(), base, project_has_cpp);
                    parse_source(language, source.content.as_slice())
                },
                None => None,
            }
        } else {
            None
        };
        let ghost seen = trees@;
        trees.push(parsed);
        proof {
            assert forall|j: int| 0 <= j < i + 1 implies (#[trigger] trees@[j]).deep_view()
                == changed_trees(sources@, *cs, project_has_cpp)[j] by {
                if j < i {
                    assert(trees@[j] == seen[j]);
                }
            }
        }
        i += 1;
    }
    proof {
        assert(trees.deep_view() =~= changed_trees(sources@, *cs, project_has_cpp));
    }
    trees
}

/// Updates a graph to the sources as they are now, from what parsing
/// each source gave. The recorded hashes are compared with the hashes of
/// the sources; where nothing was added, modified or removed the graph
/// stays as it is; else the records of the added and modified sources
/// are merged in, the removed paths are dropped, and the graph is
/// stamped with `now`. Only the trees of added and modified sources are
/// read.
pub fn update_parsed(
    graph: &mut CodeGraph,
    sources: &Vec<SourceFile>,
    trees: &Vec<Option<SyntaxTree>>,
    old_hashes: &StrMap<String>,
    now: String,
) -> (cs: ChangeSet)
    requires
        trees.len() == sources.len(),
    ensures
        is_changeset_to(cs, *old_hashes, sources@),
        is_update_of(*final(graph), *old(graph), cs, sources@, trees.deep_view(), now),
        graph_invariants(*old(graph)) ==> graph_invariants(*final(graph)),
{
    let (new_hashes, positions) = current_hashes(sources);
    let cs = detect_changed_files(old_hashes, &new_hashes);
    proof {
        assert(new_hashes.wf() && table_view(new_hashes) == source_hashes(
            sources@,
            sources@.len() as int,
        ) && is_changeset(cs, *old_hashes, new_hashes));
    }
    if cs.is_empty() {
        return cs;
    }
    apply_changes(graph, sources, trees, &cs, &positions, now);
    cs
}

/// Updates a graph to the sources as they are now. The recorded hashes
/// are compared with the hashes of the sources; where nothing was added,
/// modified or removed the graph stays as it is; else the added and
/// modified sources are parsed and indexed anew and merged in, the
/// removed paths are dropped, and the graph is stamped with `now`.
pub fn update_graph(
    graph: &mut CodeGraph,
    sources: &Vec<SourceFile>,
    old_hashes: &StrMap<String>,
    now: String,
) -> (cs: ChangeSet)
    ensures
        is_changeset_to(cs, *old_hashes, sources@),
        is_update_of(
            *final(graph),
            *old(graph),
            cs,
            sources@,
            changed_trees(sources@, cs, any_cpp(sources@)),
            now,
        ),
        graph_invariants(*old(graph)) ==> graph_invariants(*final(graph)),
{
    let (new_hashes, positions) = current_hashes(sources);
    let cs = detect_changed_files(old_hashes, &new_hashes);
    proof {
        assert(new_hashes.wf() && table_view(new_hashes) == source_hashes(
            sources@,
            sources@.len() as int,
        ) && is_changeset(cs, *old_hashes, new_hashes));
    }
    if cs.is_empty() {
        return cs;
    }
    let has_cpp = sources_have_cpp(sources);
    let trees = parse_changed(sources, &positions, &cs, has_cpp);
    apply_changes(graph, sources, &trees, &cs, &positions, now);
    cs
}

/// Scanning a project and then updating it from the same sources, with
/// the hashes of the scan on record, changes nothing: where the recorded
/// hashes are the current hashes of the sources, the change set of an
/// update is empty and the graph stays as it is.
pub proof fn law_update_without_changes(
    before: CodeGraph,
    after: CodeGraph,
    cs: ChangeSet,
    old_hashes: StrMap<String>,
    sources: Seq<SourceFile>,
    trees: Seq<Option<TreeModel>>,
    now: String,
)
    requires
        old_hashes.wf(),
        table_view(old_hashes) == source_hashes(sources, sources.len() as int),
        is_changeset_to(cs, old_hashes, sources),
        is_update_of(after, before, cs, sources, trees, now),
    ensures
        cs.added.deep_view().len() == 0,
        cs.modified.deep_view().len() == 0,
        cs.removed.deep_view().len() == 0,
        after == before,
{
    let new_hashes = choose|new_hashes: StrMap<String>|
        new_hashes.wf() && table_view(new_hashes) == source_hashes(
            sources,
            sources.len() as int,
        ) && #[trigger] is_changeset(cs, old_hashes, new_hashes);
    assert forall|p: Seq<char>| old_hashes.has(p) <==> new_hashes.has(p) by {
        assert(table_view(old_hashes).dom().contains(p) <==> old_hashes.has(p));
        assert(table_view(new_hashes).dom().contains(p) <==> new_hashes.has(p));
    }
    assert forall|p: Seq<char>| old_hashes.has(p) implies old_hashes.value_of(p)@
        == new_hashes.value_of(p)@ by {
        assert(table_view(old_hashes)[p] == old_hashes.value_of(p)@);
        assert(table_view(new_hashes)[p] == new_hashes.value_of(p)@);
    }
    crate::differ::law_same_hashes_no_change(cs, old_hashes, new_hashes);
    assert(cs.added@.len() == cs.added.deep_view().len());
    assert(cs.modified@.len() == cs.modified.deep_view().len());
    assert(cs.removed@.len() == cs.removed.deep_view().len());
}

/// Every graph that a scan leaves meets the invariants.
pub proof fn law_scan_invariants(
    g: CodeGraph,
    sources: Seq<SourceFile>,
    trees: Seq<Option<TreeModel>>,
)
    requires
        is_scan_of(g, sources, trees),
    ensures
        graph_invariants(g),
{
    let entries = choose|entries: StrMap<FileEntry>|
        entries.wf() && file_map(entries) == records_of(sources, trees, any_cpp(sources))
            && #[trigger] is_graph_of(g, entries);
    lemma_index_posix(entries, sources, trees, any_cpp(sources));
    lemma_merge_invariants(
        empty_state(),
        g,
        entries.keys(),
        file_models(entries),
        Seq::empty(),
    );
}

/// Every graph that an update leaves meets the invariants, where the
/// graph met them before.
pub proof fn law_update_invariants(
    before: CodeGraph,
    after: CodeGraph,
    cs: ChangeSet,
    sources: Seq<SourceFile>,
    trees: Seq<Option<TreeModel>>,
    now: String,
)
    requires
        graph_invariants(before),
        after.files.wf(),
        after.modules.wf(),
        is_update_of(after, before, cs, sources, trees, now),
    ensures
        graph_invariants(after),
{
    if !nothing_changed(cs) {
        let updated = choose|updated: StrMap<FileEntry>|
            updated.wf() && file_map(updated) == records_of(
                sources,
                trees,
                any_cpp(sources),
            ).restrict(changed_paths(cs)) && #[trigger] state_of(after) == merged(
                state_of(before),
                updated.keys(),
                file_models(updated),
                cs.removed.deep_view(),
            );
        lemma_index_posix(updated, sources, trees, any_cpp(sources));
        law_merge_keeps_invariants(
            before,
            after,
            updated.keys(),
            file_models(updated),
            cs.removed.deep_view(),
        );
    }
}

/// The scan of a project without sources leaves an empty graph: no
/// file, no module, every count zero, no language and no entry point.
pub proof fn law_scan_of_nothing(
    g: CodeGraph,
    sources: Seq<SourceFile>,
    trees: Seq<Option<TreeModel>>,
)
    requires
        sources.len() == 0,
        is_scan_of(g, sources, trees),
    ensures
        g.files.keys().len() == 0,
        g.modules.keys().len() == 0,
        g.summary.total_files == 0,
        g.summary.total_functions == 0,
        g.summary.total_classes == 0,
        g.summary.languages.keys().len() == 0,
        g.summary.modules.deep_view().len() == 0,
        g.summary.entry_points.deep_view().len() == 0,
{
    let entries = choose|entries: StrMap<FileEntry>|
        entries.wf() && file_map(entries) == records_of(sources, trees, any_cpp(sources))
            && #[trigger] is_graph_of(g, entries);
    if entries.keys().len() > 0 {
        entries.lemma_position(0);
        assert(file_map(entries).dom().contains(entries.keys()[0]));
    }
    assert(entries.keys() =~= Seq::<Seq<char>>::empty());
    assert(file_models(entries) =~= Seq::<FileEntryModel>::empty());
    crate::invariants::law_empty_project(g);
}

/// Merging nothing into the graph that a scan left changes nothing in
/// it: files, modules with their edges, and the summary stay as they
/// are.
pub proof fn law_merge_after_scan(
    before: CodeGraph,
    after: CodeGraph,
    sources: Seq<SourceFile>,
    trees: Seq<Option<TreeModel>>,
)
    requires
        is_scan_of(before, sources, trees),
        after.files.wf(),
        after.modules.wf(),
        state_of(after) == merged(state_of(before), Seq::empty(), Seq::empty(), Seq::empty()),
        summary_exact(after),
        edges_exact(after),
    ensures
        crate::invariants::same_graph(before, after),
{
    law_scan_invariants(before, sources, trees);
    crate::invariants::law_merge_of_nothing(before, after);
}

/// Whether parsing gave a tree for every source that has a language.
pub open spec fn all_parsed(sources: Seq<SourceFile>, trees: Seq<Option<TreeModel>>) -> bool {
    forall|i: int|
        0 <= i < sources.len() && detect_language_spec(
            indexed_path((#[trigger] sources[i]).rel_path@),
        ).is_some() ==> trees[i].is_some()
}

/// Where every source was parsed, the records hold under each path the
/// current hash of its source.
pub proof fn lemma_record_hashes(
    sources: Seq<SourceFile>,
    trees: Seq<Option<TreeModel>>,
    project_has_cpp: bool,
    n: int,
)
    requires
        n <= sources.len(),
        all_parsed(sources, trees),
    ensures
        forall|p: Seq<char>|
            records_upto(sources, trees, project_has_cpp, n).dom().contains(p) <==> source_hashes(
                sources,
                n,
            ).dom().contains(p),
        forall|p: Seq<char>| #[trigger]
            records_upto(sources, trees, project_has_cpp, n).dom().contains(p) ==> records_upto(
                sources,
                trees,
                project_has_cpp,
                n,
            )[p].hash == source_hashes(sources, n)[p],
    decreases n,
{
    let records = records_upto(sources, trees, project_has_cpp, n);
    let hashes = source_hashes(sources, n);
    if n > 0 {
        lemma_record_hashes(sources, trees, project_has_cpp, n - 1);
        let path = indexed_path(sources[n - 1].rel_path@);
        let rest = records_upto(sources, trees, project_has_cpp, n - 1);
        if detect_language_spec(path).is_some() {
            assert(trees[n - 1].is_some());
            let e = record_of(sources[n - 1], trees[n - 1], project_has_cpp);
            assert(e.is_some());
            assert(e.unwrap().hash == file_hash(sources[n - 1].content@));
            assert(records == rest.insert(path, e.unwrap()));
            assert(hashes == source_hashes(sources, n - 1).insert(
                path,
                file_hash(sources[n - 1].content@),
            ));
        } else {
            assert(records == rest);
            assert(hashes == source_hashes(sources, n - 1));
        }
        assert forall|p: Seq<char>| records.dom().contains(p) <==> hashes.dom().contains(p) by {
            assert(rest.dom().contains(p) <==> source_hashes(sources, n - 1).dom().contains(p));
        }
        assert forall|p: Seq<char>| #[trigger] records.dom().contains(p) implies records[p].hash
            == hashes[p] by {
            if !(detect_language_spec(path).is_some() && p == path) {
                assert(rest.dom().contains(p));
            }
        }
    }
}

/// After a scan in which every source that has a language was parsed,
/// the graph records the current hash of every such source.
pub proof fn law_scan_records_hashes(
    g: CodeGraph,
    sources: Seq<SourceFile>,
    trees: Seq<Option<TreeModel>>,
)
    requires
        is_scan_of(g, sources, trees),
        all_parsed(sources, trees),
    ensures
        hashes_of(g) == source_hashes(sources, sources.len() as int),
{
    let entries = choose|entries: StrMap<FileEntry>|
        entries.wf() && file_map(entries) == records_of(sources, trees, any_cpp(sources))
            && #[trigger] is_graph_of(g, entries);
    lemma_graph_files(g, entries);
    lemma_record_hashes(sources, trees, any_cpp(sources), sources.len() as int);
    let current = source_hashes(sources, sources.len() as int);
    assert forall|p: Seq<char>| hashes_of(g).dom().contains(p) <==> current.dom().contains(p) by {
        assert(file_map(g.files).dom().contains(p) <==> g.files.has(p));
    }
    assert forall|p: Seq<char>| hashes_of(g).dom().contains(p) implies hashes_of(g)[p]
        == current[p] by {
        assert(file_map(g.files).dom().contains(p));
        assert(file_map(g.files)[p] == g.files.value_of(p).deep_view());
    }
    assert(hashes_of(g) =~= current);
}

/// A scan followed at once by an update from the same sources changes
/// nothing: where every source that has a language was parsed by the
/// scan and the recorded hashes are those of the graph, the change set
/// of the update is empty and the graph stays as it is.
pub proof fn law_update_after_scan(
    before: CodeGraph,
    after: CodeGraph,
    cs: ChangeSet,
    old_hashes: StrMap<String>,
    sources: Seq<SourceFile>,
    scanned: Seq<Option<TreeModel>>,
    updated: Seq<Option<TreeModel>>,
    now: String,
)
    requires
        is_scan_of(before, sources, scanned),
        all_parsed(sources, scanned),
        old_hashes.wf(),
        table_view(old_hashes) == hashes_of(before),
        is_changeset_to(cs, old_hashes, sources),
        is_update_of(after, before, cs, sources, updated, now),
    ensures
        nothing_changed(cs),
        after == before,
{
    law_scan_records_hashes(before, sources, scanned);
    law_update_without_changes(before, after, cs, old_hashes, sources, updated, now);
}

/// A scan followed at once by an update from the same sources, with the
/// hashes of the graph on record, changes nothing: the change set of the
/// update is empty and the graph stays as it is.
pub proof fn law_scan_then_update(
    before: CodeGraph,
    after: CodeGraph,
    cs: ChangeSet,
    old_hashes: StrMap<String>,
    sources: Seq<SourceFile>,
    now: String,
)
    requires
        is_scan_of(before, sources, parsed_trees(sources, any_cpp(sources))),
        old_hashes.wf(),
        table_view(old_hashes) == hashes_of(before),
        is_changeset_to(cs, old_hashes, sources),
        is_update_of(
            after,
            before,
            cs,
            sources,
            changed_trees(sources, cs, any_cpp(sources)),
            now,
        ),
    ensures
        nothing_changed(cs),
        after == before,
{
    law_sources_parse(sources, any_cpp(sources));
    law_update_after_scan(
        before,
        after,
        cs,
        old_hashes,
        sources,
        parsed_trees(sources, any_cpp(sources)),
        changed_trees(sources, cs, any_cpp(sources)),
        now,
    );
}

/// Two graphs agree in what a scan writes beside files and modules:
/// version, project, commit and exclusion patterns.
pub open spec fn same_identity_but_stamp(a: CodeGraph, b: CodeGraph) -> bool {
    &&& a.version@ == b.version@
    &&& a.project.name@ == b.project.name@
    &&& a.project.root@ == b.project.root@
    &&& a.commit_hash.deep_view() == b.commit_hash.deep_view()
    &&& a.config.exclude_patterns.deep_view() == b.config.exclude_patterns.deep_view()
}

/// Two scans of the same project agree: where parsing gives the same
/// trees both times, the graphs agree in everything but their time
/// stamp: in files, in modules with their file lists and edges, in the
/// summary, and in version, project, commit and configuration.
pub proof fn law_scans_agree(
    a: CodeGraph,
    b: CodeGraph,
    project_name: Seq<char>,
    root_dir: Seq<char>,
    sources: Seq<SourceFile>,
    trees: Seq<Option<TreeModel>>,
)
    requires
        is_scan_of(a, sources, trees),
        is_scan_of(b, sources, trees),
        scan_identity(a, project_name, root_dir),
        scan_identity(b, project_name, root_dir),
    ensures
        crate::invariants::same_graph(a, b),
        same_identity_but_stamp(a, b),
{
    let entries_a = choose|entries: StrMap<FileEntry>|
        entries.wf() && file_map(entries) == records_of(sources, trees, any_cpp(sources))
            && #[trigger] is_graph_of(a, entries);
    let entries_b = choose|entries: StrMap<FileEntry>|
        entries.wf() && file_map(entries) == records_of(sources, trees, any_cpp(sources))
            && #[trigger] is_graph_of(b, entries);
    crate::invariants::lemma_same_files(entries_a, entries_b);
    crate::invariants::law_graph_determined(a, b);
    assert(a.config.exclude_patterns.deep_view() =~= b.config.exclude_patterns.deep_view());
}

/// Parsing gives a tree for every source that has a language.
pub proof fn law_sources_parse(sources: Seq<SourceFile>, project_has_cpp: bool)
    ensures
        all_parsed(sources, parsed_trees(sources, project_has_cpp)),
{
    let trees = parsed_trees(sources, project_has_cpp);
    assert forall|i: int|
        0 <= i < sources.len() && detect_language_spec(
            indexed_path((#[trigger] sources[i]).rel_path@),
        ).is_some() implies trees[i].is_some() by {
        assert(trees[i] == parsed_for(sources[i], project_has_cpp));
    }
}

/// Two scans of the same project agree in everything but their time
/// stamp.
pub proof fn law_two_scans_agree(
    a: CodeGraph,
    b: CodeGraph,
    project_name: Seq<char>,
    root_dir: Seq<char>,
    sources: Seq<SourceFile>,
)
    requires
        is_scan_of(a, sources, parsed_trees(sources, any_cpp(sources))),
        is_scan_of(b, sources, parsed_trees(sources, any_cpp(sources))),
        scan_identity(a, project_name, root_dir),
        scan_identity(b, project_name, root_dir),
    ensures
        crate::invariants::same_graph(a, b),
        same_identity_but_stamp(a, b),
{
    law_scans_agree(a, b, project_name, root_dir, sources, parsed_trees(sources, any_cpp(sources)));
}

} // verus!
