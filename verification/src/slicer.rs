//! Slices of a graph: the overview of a project, and for each module
//! the facts of its files in one record.

use crate::graph::{
    clone_classes, clone_functions, clone_imports, clone_types, ClassInfo, ClassInfoModel,
    CodeGraph, FileEntryModel, FunctionInfo, FunctionInfoModel, GraphSummary, ImportInfo,
    ImportInfoModel, ModuleEntry, ProjectInfo, TypeInfo, TypeInfoModel,
};
use crate::ordered::{clone_strings, same_elements, sorted_distinct, strictly_sorted};
use crate::str_map::StrMap;
use crate::summary::{clamp32, clamp_len};
use crate::text::{
    chars_of, last_index_of, lemma_last_index_of, owned, push_str, rfind_char, slice_chars,
    string_of,
};
use vstd::prelude::*;

verus! {

/// The counts of a module.
#[derive(Debug, Clone, Copy, PartialEq, Eq, Structural)]
pub struct ModuleStats {
    pub total_files: u32,
    pub total_functions: u32,
    pub total_classes: u32,
    pub total_lines: u32,
}

/// A module as the overview shows it.
#[derive(Debug)]
pub struct OverviewModule {
    pub name: String,
    pub path: String,
    pub file_count: u32,
    pub exports: Vec<String>,
    pub depends_on: Vec<String>,
    pub depended_by: Vec<String>,
    pub stats: ModuleStats,
}

/// The overview of a project.
#[derive(Debug)]
pub struct Overview {
    pub project: ProjectInfo,
    pub scanned_at: String,
    pub commit_hash: Option<String>,
    pub summary: GraphSummary,
    pub modules: Vec<OverviewModule>,
    pub entry_points: Vec<String>,
}

/// A file as a slice shows it.
#[derive(Debug)]
pub struct SliceFile {
    pub path: String,
    pub language: String,
    pub lines: u32,
    pub functions: Vec<FunctionInfo>,
    pub classes: Vec<ClassInfo>,
    pub types: Vec<TypeInfo>,
    pub imports: Vec<ImportInfo>,
    pub exports: Vec<String>,
    pub is_entry_point: bool,
    pub hash: String,
}

/// The model of a `SliceFile`.
pub struct SliceFileModel {
    pub path: Seq<char>,
    pub language: Seq<char>,
    pub lines: u32,
    pub functions: Seq<FunctionInfoModel>,
    pub classes: Seq<ClassInfoModel>,
    pub types: Seq<TypeInfoModel>,
    pub imports: Seq<ImportInfoModel>,
    pub exports: Seq<Seq<char>>,
    pub is_entry_point: bool,
    pub hash: Seq<char>,
}

impl DeepView for SliceFile {
    type V = SliceFileModel;

    open spec fn deep_view(&self) -> SliceFileModel {
        SliceFileModel {
            path: self.path@,
            language: self.language@,
            lines: self.lines,
            functions: self.functions.deep_view(),
            classes: self.classes.deep_view(),
            types: self.types.deep_view(),
            imports: self.imports.deep_view(),
            exports: self.exports.deep_view(),
            is_entry_point: self.is_entry_point,
            hash: self.hash@,
        }
    }
}

/// The slice of one module.
#[derive(Debug)]
pub struct ModuleSlice {
    pub module: String,
    pub path: String,
    pub files: Vec<SliceFile>,
    pub exports: Vec<String>,
    pub depends_on: Vec<String>,
    pub depended_by: Vec<String>,
    pub stats: ModuleStats,
}

/// What a slice tells of a module that the sliced module depends on.
#[derive(Debug)]
pub struct DepInfo {
    pub name: String,
    pub exports: Vec<String>,
    pub file_count: u32,
    pub stats: ModuleStats,
}

/// The slice of a module together with a summary of each module that it
/// depends on.
#[derive(Debug)]
pub struct ModuleSliceWithDeps {
    pub slice: ModuleSlice,
    pub dependencies: Vec<DepInfo>,
}

/// Why a slice could not be made.
#[derive(Debug)]
pub enum SliceError {
    /// The graph has no module of this name.
    ModuleNotFound(String),
}

impl SliceError {
    /// The message of the error.
    pub fn message(&self) -> (out: String)
        ensures
            out@ == match *self {
                SliceError::ModuleNotFound(name) => "Module \""@ + name@ + "\" not found in graph"@,
            },
    {
        match self {
            SliceError::ModuleNotFound(name) => {
                let mut buf = chars_of("Module \"");
                push_str(&mut buf, name.as_str());
                push_str(&mut buf, "\" not found in graph");
                string_of(&buf)
            },
        }
    }
}

// ---------------------------------------------------------------------------
// What a module adds up to
// ---------------------------------------------------------------------------

/// The record of `path` in the graph, if it has one.
pub open spec fn known_file(g: CodeGraph, path: Seq<char>) -> Option<FileEntryModel> {
    if g.files.has(path) {
        Some(g.files.value_of(path).deep_view())
    } else {
        None
    }
}

/// The exports of the first `n` files of `list`, file after file. Files
/// that the graph does not know add nothing.
pub open spec fn exports_of_files(g: CodeGraph, list: Seq<Seq<char>>, n: int) -> Seq<Seq<char>>
    decreases n,
{
    if n <= 0 {
        Seq::empty()
    } else {
        exports_of_files(g, list, n - 1) + match known_file(g, list[n - 1]) {
            Some(f) => f.exports,
            None => Seq::empty(),
        }
    }
}

/// The number of functions in the first `n` files of `list`.
pub open spec fn functions_of_files(g: CodeGraph, list: Seq<Seq<char>>, n: int) -> nat
    decreases n,
{
    if n <= 0 {
        0
    } else {
        functions_of_files(g, list, n - 1) + match known_file(g, list[n - 1]) {
            Some(f) => f.functions.len(),
            None => 0nat,
        }
    }
}

/// The number of classes in the first `n` files of `list`.
pub open spec fn classes_of_files(g: CodeGraph, list: Seq<Seq<char>>, n: int) -> nat
    decreases n,
{
    if n <= 0 {
        0
    } else {
        classes_of_files(g, list, n - 1) + match known_file(g, list[n - 1]) {
            Some(f) => f.classes.len(),
            None => 0nat,
        }
    }
}

/// The number of lines in the first `n` files of `list`.
pub open spec fn lines_of_files(g: CodeGraph, list: Seq<Seq<char>>, n: int) -> nat
    decreases n,
{
    if n <= 0 {
        0
    } else {
        lines_of_files(g, list, n - 1) + match known_file(g, list[n - 1]) {
            Some(f) => f.lines as nat,
            None => 0nat,
        }
    }
}

/// The counts of a module with the files `list`. Counts that exceed a
/// `u32` stand at its maximum.
pub open spec fn stats_of(g: CodeGraph, list: Seq<Seq<char>>) -> ModuleStats {
    ModuleStats {
        total_files: clamp32(list.len()),
        total_functions: clamp32(functions_of_files(g, list, list.len() as int)),
        total_classes: clamp32(classes_of_files(g, list, list.len() as int)),
        total_lines: clamp32(lines_of_files(g, list, list.len() as int)),
    }
}

/// The exports and the counts of a module.
pub fn collect_module_stats(graph: &CodeGraph, mod_data: &ModuleEntry) -> (r: (
    Vec<String>,
    ModuleStats,
))
    ensures
        r.0.deep_view() == exports_of_files(
            *graph,
            mod_data.files.deep_view(),
            mod_data.files.len() as int,
        ),
        r.1 == stats_of(*graph, mod_data.files.deep_view()),
{
    let mut all_exports: Vec<String> = Vec::new();
    let mut total_functions: u32 = 0;
    let mut total_classes: u32 = 0;
    let mut total_lines: u32 = 0;
    let ghost list = mod_data.files.deep_view();
    let mut i: usize = 0;
    proof {
        assert(all_exports.deep_view() =~= Seq::<Seq<char>>::empty());
    }
    while i < mod_data.files.len()
        invariant
            i <= mod_data.files.len(),
            list == mod_data.files.deep_view(),
            all_exports.deep_view() == exports_of_files(*graph, list, i as int),
            total_functions == clamp32(functions_of_files(*graph, list, i as int)),
            total_classes == clamp32(classes_of_files(*graph, list, i as int)),
            total_lines == clamp32(lines_of_files(*graph, list, i as int)),
        decreases mod_data.files.len() - i,
    {
        let ghost before = all_exports.deep_view();
        proof {
            assert(list[i as int] == mod_data.files@[i as int]@);
        }
        match graph.files.get(mod_data.files[i].as_str()) {
            Some(file) => {
                let mut copy = clone_strings(&file.exports);
                all_exports.append(&mut copy);
                total_functions = total_functions.saturating_add(clamp_len(file.functions.len()));
                total_classes = total_classes.saturating_add(clamp_len(file.classes.len()));
                total_lines = total_lines.saturating_add(file.lines);
                proof {
                    assert(all_exports.deep_view() =~= before + file.exports.deep_view());
                    assert(file.deep_view().functions.len() == file.functions.len());
                    assert(file.deep_view().classes.len() == file.classes.len());
                }
            },
            None => {
                proof {
                    assert(all_exports.deep_view() =~= before + Seq::<Seq<char>>::empty());
                }
            },
        }
        i += 1;
    }
    let stats = ModuleStats {
        total_files: clamp_len(mod_data.files.len()),
        total_functions,
        total_classes,
        total_lines,
    };
    (all_exports, stats)
}

/// The directory that stands for a module: the directory of its first
/// file, or the name of the module where it has no file or the file
/// stands in no directory.
pub open spec fn module_path_spec(files: Seq<Seq<char>>, name: Seq<char>) -> Seq<char> {
    if files.len() == 0 {
        name
    } else {
        let slash = last_index_of(files[0], '/');
        if slash > 0 {
            files[0].take(slash)
        } else if slash == 0 {
            seq!['/']
        } else {
            name
        }
    }
}

/// The directory that stands for a module.
pub fn module_dir(mod_data: &ModuleEntry, mod_name: &str) -> (out: String)
    ensures
        out@ == module_path_spec(mod_data.files.deep_view(), mod_name@),
{
    if mod_data.files.len() == 0 {
        return owned(mod_name);
    }
    let first = chars_of(mod_data.files[0].as_str());
    proof {
        lemma_last_index_of(first@, '/');
        assert(mod_data.files.deep_view()[0] == first@);
    }
    match rfind_char(&first, '/') {
        Some(i) => {
            if i > 0 {
                let dir = slice_chars(&first, 0, i);
                string_of(&dir)
            } else {
                let root: Vec<char> = vec!['/'];
                proof {
                    assert(root@ =~= seq!['/']);
                }
                string_of(&root)
            }
        },
        None => owned(mod_name),
    }
}

/// The distinct strings of `v` in ascending order.
pub fn dedup_sorted(v: Vec<String>) -> (out: Vec<String>)
    ensures
        strictly_sorted(out.deep_view()),
        same_elements(out.deep_view(), v.deep_view()),
{
    sorted_distinct(&v)
}

// ---------------------------------------------------------------------------
// Slices
// ---------------------------------------------------------------------------

/// A file record as a slice shows it.
pub open spec fn slice_file_of(path: Seq<char>, e: FileEntryModel) -> SliceFileModel {
    SliceFileModel {
        path,
        language: e.language,
        lines: e.lines,
        functions: e.functions,
        classes: e.classes,
        types: e.types,
        imports: e.imports,
        exports: e.exports,
        is_entry_point: e.is_entry_point,
        hash: e.hash,
    }
}

/// The files of a slice for the first `n` paths of `list`: one for each
/// path that the graph knows.
pub open spec fn slice_files(g: CodeGraph, list: Seq<Seq<char>>, n: int) -> Seq<SliceFileModel>
    decreases n,
{
    if n <= 0 {
        Seq::empty()
    } else {
        match known_file(g, list[n - 1]) {
            Some(f) => slice_files(g, list, n - 1).push(slice_file_of(list[n - 1], f)),
            None => slice_files(g, list, n - 1),
        }
    }
}

/// Whether `s` is the slice of the module `name` with the record
/// `module`: its files as the graph knows them, its exports distinct and
/// ascending, its edges and its counts.
pub open spec fn is_slice_of(s: ModuleSlice, g: CodeGraph, name: Seq<char>, module: ModuleEntry) -> bool {
    let list = module.files.deep_view();
    &&& s.module@ == name
    &&& s.path@ == module_path_spec(list, name)
    &&& s.files.deep_view() == slice_files(g, list, list.len() as int)
    &&& strictly_sorted(s.exports.deep_view())
    &&& same_elements(s.exports.deep_view(), exports_of_files(g, list, list.len() as int))
    &&& s.depends_on.deep_view() == module.depends_on.deep_view()
    &&& s.depended_by.deep_view() == module.depended_by.deep_view()
    &&& s.stats == stats_of(g, list)
}

/// The files of a slice.
fn slice_files_of(graph: &CodeGraph, files: &Vec<String>) -> (out: Vec<SliceFile>)
    ensures
        out.deep_view() == slice_files(*graph, files.deep_view(), files.len() as int),
{
    let mut out: Vec<SliceFile> = Vec::new();
    let ghost list = files.deep_view();
    let mut i: usize = 0;
    proof {
        assert(out.deep_view() =~= Seq::<SliceFileModel>::empty());
    }
    while i < files.len()
        invariant
            i <= files.len(),
            list == files.deep_view(),
            out.deep_view() == slice_files(*graph, list, i as int),
        decreases files.len() - i,
    {
        let ghost before = out.deep_view();
        proof {
            assert(list[i as int] == files@[i as int]@);
        }
        match graph.files.get(files[i].as_str()) {
            Some(file) => {
                let f = SliceFile {
                    path: files[i].clone(),
                    language: file.language.clone(),
                    lines: file.lines,
                    functions: clone_functions(&file.functions),
                    classes: clone_classes(&file.classes),
                    types: clone_types(&file.types),
                    imports: clone_imports(&file.imports),
                    exports: clone_strings(&file.exports),
                    is_entry_point: file.is_entry_point,
                    hash: file.hash.clone(),
                };
                out.push(f);
                proof {
                    assert(f.deep_view() == slice_file_of(list[i as int], file.deep_view()));
                    assert(out.deep_view() =~= before.push(f.deep_view()));
                }
            },
            None => {},
        }
        i += 1;
    }
    out
}

/// Builds the slice of one module.
pub fn build_module_slice(graph: &CodeGraph, mod_name: &str, mod_data: &ModuleEntry) -> (s:
    ModuleSlice)
    ensures
        is_slice_of(s, *graph, mod_name@, *mod_data),
{
    let (all_exports, stats) = collect_module_stats(graph, mod_data);
    ModuleSlice {
        module: owned(mod_name),
        path: module_dir(mod_data, mod_name),
        files: slice_files_of(graph, &mod_data.files),
        exports: dedup_sorted(all_exports),
        depends_on: clone_strings(&mod_data.depends_on),
        depended_by: clone_strings(&mod_data.depended_by),
        stats,
    }
}

/// Whether `slices` holds the slice of every module of the graph, under
/// the name of the module.
pub open spec fn are_slices_of(slices: StrMap<ModuleSlice>, g: CodeGraph) -> bool {
    &&& slices.wf()
    &&& slices.keys() == g.modules.keys()
    &&& forall|k: int|
        0 <= k < g.modules.keys().len() ==> is_slice_of(
            #[trigger] slices.values()[k],
            g,
            g.modules.keys()[k],
            g.modules.values()[k],
        )
}

/// Builds the slices of all modules.
pub fn generate_slices(graph: &CodeGraph) -> (slices: StrMap<ModuleSlice>)
    ensures
        are_slices_of(slices, *graph),
{
    let mut names: Vec<String> = Vec::new();
    let mut list: Vec<ModuleSlice> = Vec::new();
    let n = graph.modules.len();
    let mut k: usize = 0;
    proof {
        assert(names.deep_view() =~= graph.modules.keys().take(0));
    }
    while k < n
        invariant
            k <= n,
            n == graph.modules.keys().len(),
            n == graph.modules.values().len(),
            list.len() == k,
            names.deep_view() == graph.modules.keys().take(k as int),
            forall|j: int|
                0 <= j < k ==> is_slice_of(
                    #[trigger] list@[j],
                    *graph,
                    graph.modules.keys()[j],
                    graph.modules.values()[j],
                ),
        decreases n - k,
    {
        let name = graph.modules.key_at(k);
        let ghost before = names.deep_view();
        let slice = build_module_slice(graph, name.as_str(), graph.modules.value_at(k));
        names.push(name.clone());
        list.push(slice);
        proof {
            assert(names.deep_view() =~= before.push(name@));
            assert(names.deep_view() =~= graph.modules.keys().take(k + 1));
        }
        k += 1;
    }
    proof {
        assert(graph.modules.keys().take(n as int) =~= graph.modules.keys());
    }
    StrMap::from_sorted(names, list)
}

/// Whether `m` is the overview entry of the module `name` with the
/// record `module`.
pub open spec fn is_overview_of(m: OverviewModule, g: CodeGraph, name: Seq<char>, module: ModuleEntry) -> bool {
    let list = module.files.deep_view();
    &&& m.name@ == name
    &&& m.path@ == module_path_spec(list, name)
    &&& m.file_count == clamp32(list.len())
    &&& strictly_sorted(m.exports.deep_view())
    &&& same_elements(m.exports.deep_view(), exports_of_files(g, list, list.len() as int))
    &&& m.depends_on.deep_view() == module.depends_on.deep_view()
    &&& m.depended_by.deep_view() == module.depended_by.deep_view()
    &&& m.stats == stats_of(g, list)
}

/// Whether `o` is the overview of the graph: its identity and summary,
/// and one entry per module, in ascending order of the module names.
pub open spec fn is_overview(o: Overview, g: CodeGraph) -> bool {
    &&& o.project.name@ == g.project.name@
    &&& o.project.root@ == g.project.root@
    &&& o.scanned_at@ == g.scanned_at@
    &&& o.commit_hash.deep_view() == g.commit_hash.deep_view()
    &&& o.summary.total_files == g.summary.total_files
    &&& o.summary.total_functions == g.summary.total_functions
    &&& o.summary.total_classes == g.summary.total_classes
    &&& o.summary.languages.keys() == g.summary.languages.keys()
    &&& o.summary.languages.values() == g.summary.languages.values()
    &&& o.summary.modules.deep_view() == g.summary.modules.deep_view()
    &&& o.summary.entry_points.deep_view() == g.summary.entry_points.deep_view()
    &&& o.entry_points.deep_view() == g.summary.entry_points.deep_view()
    &&& o.modules.len() == g.modules.keys().len()
    &&& forall|k: int|
        0 <= k < g.modules.keys().len() ==> is_overview_of(
            #[trigger] o.modules@[k],
            g,
            g.modules.keys()[k],
            g.modules.values()[k],
        )
}

/// Builds the overview of a project.
pub fn generate_overview(graph: &CodeGraph) -> (o: Overview)
    ensures
        is_overview(o, *graph),
{
    let mut modules: Vec<OverviewModule> = Vec::new();
    let n = graph.modules.len();
    let mut k: usize = 0;
    while k < n
        invariant
            k <= n,
            n == graph.modules.keys().len(),
            n == graph.modules.values().len(),
            modules.len() == k,
            forall|j: int|
                0 <= j < k ==> is_overview_of(
                    #[trigger] modules@[j],
                    *graph,
                    graph.modules.keys()[j],
                    graph.modules.values()[j],
                ),
        decreases n - k,
    {
        let name = graph.modules.key_at(k);
        let mod_data = graph.modules.value_at(k);
        let (all_exports, stats) = collect_module_stats(graph, mod_data);
        let entry = OverviewModule {
            name: name.clone(),
            path: module_dir(mod_data, name.as_str()),
            file_count: clamp_len(mod_data.files.len()),
            exports: dedup_sorted(all_exports),
            depends_on: clone_strings(&mod_data.depends_on),
            depended_by: clone_strings(&mod_data.depended_by),
            stats,
        };
        modules.push(entry);
        k += 1;
    }
    let commit_hash = match &graph.commit_hash {
        Some(h) => Some(h.clone()),
        None => None,
    };
    Overview {
        project: graph.project.clone(),
        scanned_at: graph.scanned_at.clone(),
        commit_hash,
        summary: GraphSummary {
            total_files: graph.summary.total_files,
            total_functions: graph.summary.total_functions,
            total_classes: graph.summary.total_classes,
            languages: graph.summary.languages.duplicate(),
            modules: clone_strings(&graph.summary.modules),
            entry_points: clone_strings(&graph.summary.entry_points),
        },
        modules,
        entry_points: clone_strings(&graph.summary.entry_points),
    }
}

/// What a slice tells of the module `name` as a dependency: its exports
/// and counts, or nothing but the name where the graph has no such
/// module.
pub open spec fn is_dep_info(d: DepInfo, g: CodeGraph, name: Seq<char>) -> bool {
    &&& d.name@ == name
    &&& if g.modules.has(name) {
        let list = g.modules.value_of(name).files.deep_view();
        &&& strictly_sorted(d.exports.deep_view())
        &&& same_elements(d.exports.deep_view(), exports_of_files(g, list, list.len() as int))
        &&& d.file_count == clamp32(list.len())
        &&& d.stats == stats_of(g, list)
    } else {
        &&& d.exports.deep_view().len() == 0
        &&& d.file_count == 0
        &&& d.stats == ModuleStats {
            total_files: 0,
            total_functions: 0,
            total_classes: 0,
            total_lines: 0,
        }
    }
}

/// The slice of a module with a summary of every module it depends on.
/// Fails with `ModuleNotFound` exactly when the graph has no module of
/// that name.
pub fn get_module_slice_with_deps(graph: &CodeGraph, module_name: &str) -> (r: Result<
    ModuleSliceWithDeps,
    SliceError,
>)
    ensures
        match r {
            Ok(s) => graph.modules.has(module_name@) && is_slice_of(
                s.slice,
                *graph,
                module_name@,
                graph.modules.value_of(module_name@),
            ) && s.dependencies.len() == graph.modules.value_of(module_name@).depends_on.len()
                && forall|k: int|
                0 <= k < s.dependencies.len() ==> is_dep_info(
                    #[trigger] s.dependencies@[k],
                    *graph,
                    graph.modules.value_of(module_name@).depends_on.deep_view()[k],
                ),
            Err(e) => !graph.modules.has(module_name@) && match e {
                SliceError::ModuleNotFound(name) => name@ == module_name@,
            },
        },
{
    match graph.modules.get(module_name) {
        Some(mod_data) => {
            let slice = build_module_slice(graph, module_name, mod_data);
            let mut dependencies: Vec<DepInfo> = Vec::new();
            let ghost deps = mod_data.depends_on.deep_view();
            let mut k: usize = 0;
            while k < mod_data.depends_on.len()
                invariant
                    k <= mod_data.depends_on.len(),
                    deps == mod_data.depends_on.deep_view(),
                    dependencies.len() == k,
                    forall|j: int|
                        0 <= j < k ==> is_dep_info(#[trigger] dependencies@[j], *graph, deps[j]),
                decreases mod_data.depends_on.len() - k,
            {
                let dep_name = &mod_data.depends_on[k];
                proof {
                    assert(deps[k as int] == dep_name@);
                }
                let info = match graph.modules.get(dep_name.as_str()) {
                    Some(dep_data) => {
                        let (dep_exports, dep_stats) = collect_module_stats(graph, dep_data);
                        DepInfo {
                            name: dep_name.clone(),
                            exports: dedup_sorted(dep_exports),
                            file_count: clamp_len(dep_data.files.len()),
                            stats: dep_stats,
                        }
                    },
                    None => {
                        let exports: Vec<String> = Vec::new();
                        proof {
                            assert(exports.deep_view() =~= Seq::<Seq<char>>::empty());
                        }
                        DepInfo {
                            name: dep_name.clone(),
                            exports,
                            file_count: 0,
                            stats: ModuleStats {
                                total_files: 0,
                                total_functions: 0,
                                total_classes: 0,
                                total_lines: 0,
                            },
                        }
                    },
                };
                dependencies.push(info);
                k += 1;
            }
            Ok(ModuleSliceWithDeps { slice, dependencies })
        },
        None => Err(SliceError::ModuleNotFound(owned(module_name))),
    }
}

} // verus!
