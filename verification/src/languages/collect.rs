//! The four operations that every adapter offers, dispatched on the
//! language. The walk visits every node once, in document order.

use crate::languages::c_lang::{
    c_class_at, c_exports, c_function_at, c_include_at, extract_c_exports, push_c_class,
    push_c_function, push_c_include,
};
use crate::languages::cpp::{
    cpp_class_at, cpp_enum_at, cpp_namespace_at, push_cpp_class, push_cpp_enum, push_cpp_namespace,
};
use crate::languages::ecma::{
    ecma_class_at, ecma_export_at, ecma_function_at, ecma_import_at, push_ecma_class,
    push_ecma_export, push_ecma_function, push_ecma_import,
};
use crate::languages::facts::{
    ClassFact, ClassInfo, ExportFact, ExportInfo, FunctionFact, FunctionInfo, ImportFact,
    ImportInfo,
};
use crate::languages::go_lang::{
    go_class_at, go_export_at, go_function_at, go_import_at, is_go_exported_spec,
    law_exports_are_capitalized, push_go_class, push_go_export, push_go_function, push_go_import,
};
use crate::languages::java::{
    java_class_at, java_export_at, java_function_at, java_import_at, push_java_class,
    push_java_export, push_java_function, push_java_import,
};
use crate::languages::python::{
    extract_python_classes, extract_python_exports, extract_python_functions, push_python_import,
    py_classes, py_exports, py_functions, py_import_at,
};
use crate::languages::rust_lang::{
    push_rust_class, push_rust_export, push_rust_function, push_rust_import, rust_class_at,
    rust_export_at, rust_function_at, rust_import_at,
};
use crate::parser::{grammar_of, grammar_of_spec, parse_source, parsed_model, Grammar};
use crate::syntax::{SyntaxTree, TreeModel};
use crate::traverser::Language;
use vstd::prelude::*;

verus! {

// ---------------------------------------------------------------------------
// Functions
// ---------------------------------------------------------------------------

/// The functions that node `i` gives under the rules of `language`.
/// Python is not walked node by node.
pub open spec fn function_at(language: Language, t: TreeModel, src: Seq<u8>, i: int) -> Seq<
    FunctionFact,
> {
    match language {
        Language::TypeScript => ecma_function_at(t, src, i, true),
        Language::JavaScript => ecma_function_at(t, src, i, false),
        Language::Python => Seq::empty(),
        Language::Go => go_function_at(t, src, i),
        Language::Rust => rust_function_at(t, src, i),
        Language::Java => java_function_at(t, src, i),
        Language::C => c_function_at(t, src, i),
        Language::Cpp => c_function_at(t, src, i),
    }
}

/// The functions that the first `n` nodes give.
pub open spec fn functions_upto(language: Language, t: TreeModel, src: Seq<u8>, n: int) -> Seq<
    FunctionFact,
>
    decreases n,
{
    if n <= 0 {
        Seq::empty()
    } else {
        functions_upto(language, t, src, n - 1) + function_at(language, t, src, n - 1)
    }
}

/// The functions of a file of `language`: those of its top-level
/// definitions for Python, those of all its nodes otherwise, in document
/// order.
pub open spec fn functions_spec(language: Language, t: TreeModel, src: Seq<u8>) -> Seq<
    FunctionFact,
> {
    if language == Language::Python {
        py_functions(t, src)
    } else {
        functions_upto(language, t, src, t.size())
    }
}

/// Appends the functions that node `i` gives.
fn push_function_at(
    language: Language,
    tree: &SyntaxTree,
    source: &[u8],
    i: usize,
    out: &mut Vec<FunctionInfo>,
)
    requires
        i < tree.size(),
    ensures
        final(out).deep_view() == old(out).deep_view() + function_at(
            language,
            tree@,
            source@,
            i as int,
        ),
{
    let ghost base = out.deep_view();
    match language {
        Language::TypeScript => push_ecma_function(tree, source, i, true, out),
        Language::JavaScript => push_ecma_function(tree, source, i, false, out),
        Language::Python => {
            proof {
                assert(base + Seq::<FunctionFact>::empty() =~= base);
            }
        },
        Language::Go => push_go_function(tree, source, i, out),
        Language::Rust => push_rust_function(tree, source, i, out),
        Language::Java => push_java_function(tree, source, i, out),
        Language::C => push_c_function(tree, source, i, out),
        Language::Cpp => push_c_function(tree, source, i, out),
    }
}

/// The functions of a file of `language`.
pub fn extract_functions(language: Language, tree: &SyntaxTree, source: &[u8]) -> (out: Vec<
    FunctionInfo,
>)
    ensures
        out.deep_view() == functions_spec(language, tree@, source@),
{
    if language == Language::Python {
        return extract_python_functions(tree, source);
    }
    let mut out: Vec<FunctionInfo> = Vec::new();
    let n = tree.len();
    let mut i: usize = 0;
    proof {
        assert(out.deep_view() =~= Seq::<FunctionFact>::empty());
    }
    while i < n
        invariant
            i <= n,
            n == tree.size(),
            out.deep_view() == functions_upto(language, tree@, source@, i as int),
        decreases n - i,
    {
        push_function_at(language, tree, source, i, &mut out);
        i += 1;
    }
    out
}

// ---------------------------------------------------------------------------
// Imports
// ---------------------------------------------------------------------------

/// The imports that node `i` gives under the rules of `language`.
pub open spec fn import_at(language: Language, t: TreeModel, src: Seq<u8>, i: int) -> Seq<
    ImportFact,
> {
    match language {
        Language::TypeScript => ecma_import_at(t, src, i),
        Language::JavaScript => ecma_import_at(t, src, i),
        Language::Python => py_import_at(t, src, i),
        Language::Go => go_import_at(t, src, i),
        Language::Rust => rust_import_at(t, src, i),
        Language::Java => java_import_at(t, src, i),
        Language::C => c_include_at(t, src, i),
        Language::Cpp => c_include_at(t, src, i),
    }
}

/// The imports that the first `n` nodes give.
pub open spec fn imports_upto(language: Language, t: TreeModel, src: Seq<u8>, n: int) -> Seq<
    ImportFact,
>
    decreases n,
{
    if n <= 0 {
        Seq::empty()
    } else {
        imports_upto(language, t, src, n - 1) + import_at(language, t, src, n - 1)
    }
}

/// The imports of a file of `language`, in document order.
pub open spec fn imports_spec(language: Language, t: TreeModel, src: Seq<u8>) -> Seq<ImportFact> {
    imports_upto(language, t, src, t.size())
}

/// Appends the imports that node `i` gives.
fn push_import_at(
    language: Language,
    tree: &SyntaxTree,
    source: &[u8],
    i: usize,
    out: &mut Vec<ImportInfo>,
)
    requires
        i < tree.size(),
    ensures
        final(out).deep_view() == old(out).deep_view() + import_at(
            language,
            tree@,
            source@,
            i as int,
        ),
{
    match language {
        Language::TypeScript => push_ecma_import(tree, source, i, out),
        Language::JavaScript => push_ecma_import(tree, source, i, out),
        Language::Python => push_python_import(tree, source, i, out),
        Language::Go => push_go_import(tree, source, i, out),
        Language::Rust => push_rust_import(tree, source, i, out),
        Language::Java => push_java_import(tree, source, i, out),
        Language::C => push_c_include(tree, source, i, out),
        Language::Cpp => push_c_include(tree, source, i, out),
    }
}

/// The imports of a file of `language`.
pub fn extract_imports(language: Language, tree: &SyntaxTree, source: &[u8]) -> (out: Vec<
    ImportInfo,
>)
    ensures
        out.deep_view() == imports_spec(language, tree@, source@),
{
    let mut out: Vec<ImportInfo> = Vec::new();
    let n = tree.len();
    let mut i: usize = 0;
    proof {
        assert(out.deep_view() =~= Seq::<ImportFact>::empty());
    }
    while i < n
        invariant
            i <= n,
            n == tree.size(),
            out.deep_view() == imports_upto(language, tree@, source@, i as int),
        decreases n - i,
    {
        push_import_at(language, tree, source, i, &mut out);
        i += 1;
    }
    out
}

// ---------------------------------------------------------------------------
// Exports
// ---------------------------------------------------------------------------

/// The exports that node `i` gives under the rules of `language`. Python,
/// C and C++ are not walked node by node.
pub open spec fn export_at(language: Language, t: TreeModel, src: Seq<u8>, i: int) -> Seq<
    ExportFact,
> {
    match language {
        Language::TypeScript => ecma_export_at(t, src, i, true),
        Language::JavaScript => ecma_export_at(t, src, i, false),
        Language::Go => go_export_at(t, src, i),
        Language::Rust => rust_export_at(t, src, i),
        Language::Java => java_export_at(t, src, i),
        _ => Seq::empty(),
    }
}

/// The exports that the first `n` nodes give.
pub open spec fn exports_upto(language: Language, t: TreeModel, src: Seq<u8>, n: int) -> Seq<
    ExportFact,
>
    decreases n,
{
    if n <= 0 {
        Seq::empty()
    } else {
        exports_upto(language, t, src, n - 1) + export_at(language, t, src, n - 1)
    }
}

/// The exports of a file of `language`.
pub open spec fn exports_spec(language: Language, t: TreeModel, src: Seq<u8>) -> Seq<ExportFact> {
    match language {
        Language::Python => py_exports(t, src),
        Language::C => c_exports(t, src),
        Language::Cpp => c_exports(t, src),
        _ => exports_upto(language, t, src, t.size()),
    }
}

/// No export among those of the first `n` nodes of a Go file bears a
/// name that begins otherwise than with an upper-case letter.
proof fn lemma_go_exports_upto(t: TreeModel, src: Seq<u8>, n: int)
    ensures
        forall|k: int|
            0 <= k < exports_upto(Language::Go, t, src, n).len() ==> is_go_exported_spec(
                (#[trigger] exports_upto(Language::Go, t, src, n)[k]).name,
            ),
    decreases n,
{
    if n > 0 {
        lemma_go_exports_upto(t, src, n - 1);
        law_exports_are_capitalized(t, src, n - 1);
        let a = exports_upto(Language::Go, t, src, n - 1);
        let b = go_export_at(t, src, n - 1);
        assert forall|k: int| 0 <= k < (a + b).len() implies is_go_exported_spec(
            (#[trigger] (a + b)[k]).name,
        ) by {
            if k < a.len() {
                assert((a + b)[k] == a[k]);
            } else {
                assert((a + b)[k] == b[k - a.len()]);
            }
        }
    }
}

/// A Go file exports only names that begin with an upper-case letter: a
/// function with another name is in no export.
pub proof fn law_go_exports_are_capitalized(t: TreeModel, src: Seq<u8>)
    ensures
        forall|k: int|
            0 <= k < exports_spec(Language::Go, t, src).len() ==> is_go_exported_spec(
                (#[trigger] exports_spec(Language::Go, t, src)[k]).name,
            ),
{
    lemma_go_exports_upto(t, src, t.size());
}

/// Appends the exports that node `i` gives.
fn push_export_at(
    language: Language,
    tree: &SyntaxTree,
    source: &[u8],
    i: usize,
    out: &mut Vec<ExportInfo>,
)
    requires
        i < tree.size(),
    ensures
        final(out).deep_view() == old(out).deep_view() + export_at(
            language,
            tree@,
            source@,
            i as int,
        ),
{
    let ghost base = out.deep_view();
    match language {
        Language::TypeScript => push_ecma_export(tree, source, i, true, out),
        Language::JavaScript => push_ecma_export(tree, source, i, false, out),
        Language::Go => push_go_export(tree, source, i, out),
        Language::Rust => push_rust_export(tree, source, i, out),
        Language::Java => push_java_export(tree, source, i, out),
        _ => {
            proof {
                assert(base + Seq::<ExportFact>::empty() =~= base);
            }
        },
    }
}

/// The exports of a file of `language`.
pub fn extract_exports(language: Language, tree: &SyntaxTree, source: &[u8]) -> (out: Vec<
    ExportInfo,
>)
    ensures
        out.deep_view() == exports_spec(language, tree@, source@),
{
    match language {
        Language::Python => {
            return extract_python_exports(tree, source);
        },
        Language::C => {
            return extract_c_exports(tree, source);
        },
        Language::Cpp => {
            return extract_c_exports(tree, source);
        },
        _ => {},
    }
    let mut out: Vec<ExportInfo> = Vec::new();
    let n = tree.len();
    let mut i: usize = 0;
    proof {
        assert(out.deep_view() =~= Seq::<ExportFact>::empty());
    }
    while i < n
        invariant
            i <= n,
            n == tree.size(),
            out.deep_view() == exports_upto(language, tree@, source@, i as int),
        decreases n - i,
    {
        push_export_at(language, tree, source, i, &mut out);
        i += 1;
    }
    out
}

// ---------------------------------------------------------------------------
// Classes
// ---------------------------------------------------------------------------

/// The classes that node `i` gives under the rules of `language`. Python
/// is not walked node by node.
pub open spec fn class_at(language: Language, t: TreeModel, src: Seq<u8>, i: int) -> Seq<
    ClassFact,
> {
    match language {
        Language::TypeScript => ecma_class_at(t, src, i, true),
        Language::JavaScript => ecma_class_at(t, src, i, false),
        Language::Python => Seq::empty(),
        Language::Go => go_class_at(t, src, i),
        Language::Rust => rust_class_at(t, src, i),
        Language::Java => java_class_at(t, src, i),
        Language::C => c_class_at(t, src, i, Seq::empty()),
        Language::Cpp => cpp_class_at(t, src, i),
    }
}

/// The classes that the first `n` nodes give.
pub open spec fn classes_upto(language: Language, t: TreeModel, src: Seq<u8>, n: int) -> Seq<
    ClassFact,
>
    decreases n,
{
    if n <= 0 {
        Seq::empty()
    } else {
        classes_upto(language, t, src, n - 1) + class_at(language, t, src, n - 1)
    }
}

/// The enums that the first `n` nodes give under the C++ rules.
pub open spec fn cpp_enums_upto(t: TreeModel, src: Seq<u8>, n: int) -> Seq<ClassFact>
    decreases n,
{
    if n <= 0 {
        Seq::empty()
    } else {
        cpp_enums_upto(t, src, n - 1) + cpp_enum_at(t, src, n - 1)
    }
}

/// The namespaces that the first `n` nodes give under the C++ rules.
pub open spec fn cpp_namespaces_upto(t: TreeModel, src: Seq<u8>, n: int) -> Seq<ClassFact>
    decreases n,
{
    if n <= 0 {
        Seq::empty()
    } else {
        cpp_namespaces_upto(t, src, n - 1) + cpp_namespace_at(t, src, n - 1)
    }
}

/// The classes of a file of `language`: those of its top-level
/// definitions for Python, those of all its nodes otherwise; for C++ the
/// structs and classes come first, then the enums, then the namespaces.
pub open spec fn classes_spec(language: Language, t: TreeModel, src: Seq<u8>) -> Seq<ClassFact> {
    match language {
        Language::Python => py_classes(t, src),
        Language::Cpp => classes_upto(language, t, src, t.size()) + cpp_enums_upto(
            t,
            src,
            t.size(),
        ) + cpp_namespaces_upto(t, src, t.size()),
        _ => classes_upto(language, t, src, t.size()),
    }
}

/// Appends the classes that node `i` gives.
fn push_class_at(
    language: Language,
    tree: &SyntaxTree,
    source: &[u8],
    i: usize,
    out: &mut Vec<ClassInfo>,
)
    requires
        i < tree.size(),
    ensures
        final(out).deep_view() == old(out).deep_view() + class_at(
            language,
            tree@,
            source@,
            i as int,
        ),
{
    let ghost base = out.deep_view();
    match language {
        Language::TypeScript => push_ecma_class(tree, source, i, true, out),
        Language::JavaScript => push_ecma_class(tree, source, i, false, out),
        Language::Python => {
            proof {
                assert(base + Seq::<ClassFact>::empty() =~= base);
            }
        },
        Language::Go => push_go_class(tree, source, i, out),
        Language::Rust => push_rust_class(tree, source, i, out),
        Language::Java => push_java_class(tree, source, i, out),
        Language::C => push_c_class(tree, source, i, out),
        Language::Cpp => push_cpp_class(tree, source, i, out),
    }
}

/// The classes of a file of `language`.
pub fn extract_classes(language: Language, tree: &SyntaxTree, source: &[u8]) -> (out: Vec<
    ClassInfo,
>)
    ensures
        out.deep_view() == classes_spec(language, tree@, source@),
{
    if language == Language::Python {
        return extract_python_classes(tree, source);
    }
    let mut out: Vec<ClassInfo> = Vec::new();
    let n = tree.len();
    let mut i: usize = 0;
    proof {
        assert(out.deep_view() =~= Seq::<ClassFact>::empty());
    }
    while i < n
        invariant
            i <= n,
            n == tree.size(),
            out.deep_view() == classes_upto(language, tree@, source@, i as int),
        decreases n - i,
    {
        push_class_at(language, tree, source, i, &mut out);
        i += 1;
    }
    if language == Language::Cpp {
        let ghost first = out.deep_view();
        let mut j: usize = 0;
        proof {
            assert(out.deep_view() =~= first + cpp_enums_upto(tree@, source@, 0));
        }
        while j < n
            invariant
                j <= n,
                n == tree.size(),
                out.deep_view() == first + cpp_enums_upto(tree@, source@, j as int),
            decreases n - j,
        {
            let ghost before = out.deep_view();
            push_cpp_enum(tree, source, j, &mut out);
            proof {
                assert(first + cpp_enums_upto(tree@, source@, j + 1) =~= before + cpp_enum_at(
                    tree@,
                    source@,
                    j as int,
                ));
            }
            j += 1;
        }
        let ghost second = out.deep_view();
        let mut k: usize = 0;
        proof {
            assert(out.deep_view() =~= second + cpp_namespaces_upto(tree@, source@, 0));
        }
        while k < n
            invariant
                k <= n,
                n == tree.size(),
                out.deep_view() == second + cpp_namespaces_upto(tree@, source@, k as int),
            decreases n - k,
        {
            let ghost before = out.deep_view();
            push_cpp_namespace(tree, source, k, &mut out);
            proof {
                assert(second + cpp_namespaces_upto(tree@, source@, k + 1) =~= before
                    + cpp_namespace_at(tree@, source@, k as int));
            }
            k += 1;
        }
    }
    out
}

// ---------------------------------------------------------------------------
// The adapter of a language
// ---------------------------------------------------------------------------

/// The adapter of a language: the four operations under the rules of
/// that language.
#[derive(Debug, Clone, Copy)]
pub struct Adapter {
    pub language: Language,
}

/// The adapter of `lang`.
pub fn get_adapter(lang: Language) -> (a: Adapter)
    ensures
        a.language == lang,
{
    Adapter { language: lang }
}

impl Adapter {
    /// The grammar that this adapter parses with.
    pub fn grammar(&self) -> (g: Grammar)
        ensures
            g == grammar_of_spec(self.language),
    {
        grammar_of(self.language)
    }

    /// Parses a source file. There is always a tree.
    pub fn parse(&self, source: &[u8]) -> (r: Option<SyntaxTree>)
        ensures
            match r {
                Some(t) => t.wf() && t.size() >= 1 && t@ == parsed_model(grammar_of_spec(self.language), source@),
                None => false,
            },
    {
        parse_source(self.language, source)
    }

    /// The functions of a parsed file.
    pub fn extract_functions(&self, tree: &SyntaxTree, source: &[u8]) -> (out: Vec<FunctionInfo>)
        ensures
            out.deep_view() == functions_spec(self.language, tree@, source@),
    {
        extract_functions(self.language, tree, source)
    }

    /// The imports of a parsed file.
    pub fn extract_imports(&self, tree: &SyntaxTree, source: &[u8]) -> (out: Vec<ImportInfo>)
        ensures
            out.deep_view() == imports_spec(self.language, tree@, source@),
    {
        extract_imports(self.language, tree, source)
    }

    /// The exports of a parsed file.
    pub fn extract_exports(&self, tree: &SyntaxTree, source: &[u8]) -> (out: Vec<ExportInfo>)
        ensures
            out.deep_view() == exports_spec(self.language, tree@, source@),
    {
        extract_exports(self.language, tree, source)
    }

    /// The classes of a parsed file.
    pub fn extract_classes(&self, tree: &SyntaxTree, source: &[u8]) -> (out: Vec<ClassInfo>)
        ensures
            out.deep_view() == classes_spec(self.language, tree@, source@),
    {
        extract_classes(self.language, tree, source)
    }
}

} // verus!
