//! The C++ adapter. The rules of C apply; classes carry their inline
//! methods, and enums with a body and namespaces are recorded as classes.

use crate::languages::c_lang::{c_class_at, c_declared_name, declared_name, has_body};
use crate::languages::collect::{
    classes_spec, exports_spec, extract_classes, extract_exports, extract_functions,
    extract_imports, functions_spec, imports_spec,
};
use crate::languages::facts::{
    field_text, field_text_spec, ClassFact, ClassInfo, ExportInfo, FunctionInfo, ImportInfo,
};
use crate::parser::{parse_with, parsed_model, Grammar};
use crate::syntax::{SyntaxTree, TreeModel};
use crate::text::owned;
use crate::traverser::Language;
use vstd::prelude::*;

verus! {

/// The method name that node `c` gives: a function definition whose
/// declarator has a name.
pub open spec fn cpp_method_at(t: TreeModel, src: Seq<u8>, c: int) -> Seq<Seq<char>> {
    if t.kind(c) == "function_definition"@ {
        match c_declared_name(t, src, c) {
            Some(n) => seq![n],
            None => Seq::empty(),
        }
    } else {
        Seq::empty()
    }
}

/// The method names that the nodes from `from` up to `to` give.
pub open spec fn cpp_methods_between(t: TreeModel, src: Seq<u8>, from: int, to: int) -> Seq<
    Seq<char>,
>
    decreases to - from,
{
    if to <= from {
        Seq::empty()
    } else {
        cpp_methods_between(t, src, from, to - 1) + cpp_method_at(t, src, to - 1)
    }
}

/// The names of the functions defined in the subtree of node `i`.
pub open spec fn cpp_methods(t: TreeModel, src: Seq<u8>, i: int) -> Seq<Seq<char>> {
    cpp_methods_between(t, src, i, t.ends()[i] as int)
}

/// The names of the functions defined in the subtree of node `i`.
pub fn extract_cpp_methods(tree: &SyntaxTree, source: &[u8], i: usize) -> (out: Vec<String>)
    requires
        i < tree.size(),
    ensures
        out.deep_view() == cpp_methods(tree@, source@, i as int),
{
    let end = tree.end(i);
    let mut out: Vec<String> = Vec::new();
    let mut c: usize = i;
    proof {
        assert(out.deep_view() =~= Seq::<Seq<char>>::empty());
    }
    while c < end
        invariant
            i <= c <= end,
            end <= tree.size(),
            out.deep_view() == cpp_methods_between(tree@, source@, i as int, c as int),
        decreases end - c,
    {
        let ghost before = out.deep_view();
        if tree.kind_is(c, "function_definition") {
            match declared_name(tree, source, c) {
                Some(n) => {
                    out.push(n);
                    proof {
                        assert(out.deep_view() =~= before + seq![n@]);
                    }
                },
                None => {},
            }
        }
        proof {
            assert(out.deep_view() =~= before + cpp_method_at(tree@, source@, c as int));
        }
        c += 1;
    }
    out
}

/// The class that node `i` declares under the C++ rules: a struct or
/// class with a body and a name; a class carries its inline methods.
pub open spec fn cpp_class_at(t: TreeModel, src: Seq<u8>, i: int) -> Seq<ClassFact> {
    c_class_at(t, src, i, cpp_methods(t, src, i))
}

/// Appends the class that node `i` declares under the C++ rules.
pub fn push_cpp_class(tree: &SyntaxTree, source: &[u8], i: usize, out: &mut Vec<ClassInfo>)
    requires
        i < tree.size(),
    ensures
        final(out).deep_view() == old(out).deep_view() + cpp_class_at(tree@, source@, i as int),
{
    let ghost base = out.deep_view();
    let is_class = tree.kind_is(i, "class_specifier");
    if (tree.kind_is(i, "struct_specifier") || is_class) && tree.child_by_field_name(
        i,
        "body",
    ).is_some() {
        match field_text(tree, source, i, "name") {
            Some(name) => {
                let node = tree.node(i);
                let methods: Vec<String> = if is_class {
                    extract_cpp_methods(tree, source, i)
                } else {
                    Vec::new()
                };
                proof {
                    if !is_class {
                        assert(methods.deep_view() =~= Seq::<Seq<char>>::empty());
                    }
                }
                let info = ClassInfo {
                    name,
                    start_line: node.start_line,
                    end_line: node.end_line,
                    methods,
                    kind: if is_class {
                        owned("class")
                    } else {
                        owned("struct")
                    },
                };
                out.push(info);
                proof {
                    assert(out.deep_view() =~= base + seq![info.deep_view()]);
                }
            },
            None => {},
        }
    }
    proof {
        assert(out.deep_view() =~= base + cpp_class_at(tree@, source@, i as int));
    }
}

/// The record of node `i` as a class of kind `kind`, without methods,
/// where the node has a name.
pub open spec fn plain_class(t: TreeModel, src: Seq<u8>, i: int, kind: Seq<char>) -> Seq<
    ClassFact,
> {
    match field_text_spec(t, src, i, "name"@) {
        Some(name) => seq![
            ClassFact {
                name,
                start_line: t.nodes()[i].start_line,
                end_line: t.nodes()[i].end_line,
                methods: Seq::empty(),
                kind,
            },
        ],
        None => Seq::empty(),
    }
}

/// The enum that node `i` declares: an enum with a body and a name.
pub open spec fn cpp_enum_at(t: TreeModel, src: Seq<u8>, i: int) -> Seq<ClassFact> {
    if t.kind(i) == "enum_specifier"@ && has_body(t, i) {
        plain_class(t, src, i, "enum"@)
    } else {
        Seq::empty()
    }
}

/// The namespace that node `i` declares: a namespace with a name.
pub open spec fn cpp_namespace_at(t: TreeModel, src: Seq<u8>, i: int) -> Seq<ClassFact> {
    if t.kind(i) == "namespace_definition"@ {
        plain_class(t, src, i, "namespace"@)
    } else {
        Seq::empty()
    }
}

/// Appends the record of node `i` as a class of kind `kind`.
fn push_plain_class(
    tree: &SyntaxTree,
    source: &[u8],
    i: usize,
    kind: &str,
    out: &mut Vec<ClassInfo>,
)
    requires
        i < tree.size(),
    ensures
        final(out).deep_view() == old(out).deep_view() + plain_class(
            tree@,
            source@,
            i as int,
            kind@,
        ),
{
    let ghost base = out.deep_view();
    match field_text(tree, source, i, "name") {
        Some(name) => {
            let node = tree.node(i);
            let methods: Vec<String> = Vec::new();
            proof {
                assert(methods.deep_view() =~= Seq::<Seq<char>>::empty());
            }
            let info = ClassInfo {
                name,
                start_line: node.start_line,
                end_line: node.end_line,
                methods,
                kind: owned(kind),
            };
            out.push(info);
            proof {
                assert(out.deep_view() =~= base + seq![info.deep_view()]);
            }
        },
        None => {},
    }
    proof {
        assert(out.deep_view() =~= base + plain_class(tree@, source@, i as int, kind@));
    }
}

/// Appends the enum that node `i` declares.
pub fn push_cpp_enum(tree: &SyntaxTree, source: &[u8], i: usize, out: &mut Vec<ClassInfo>)
    requires
        i < tree.size(),
    ensures
        final(out).deep_view() == old(out).deep_view() + cpp_enum_at(tree@, source@, i as int),
{
    let ghost base = out.deep_view();
    if tree.kind_is(i, "enum_specifier") && tree.child_by_field_name(i, "body").is_some() {
        push_plain_class(tree, source, i, "enum", out);
    }
    proof {
        assert(out.deep_view() =~= base + cpp_enum_at(tree@, source@, i as int));
    }
}

/// Appends the namespace that node `i` declares.
pub fn push_cpp_namespace(tree: &SyntaxTree, source: &[u8], i: usize, out: &mut Vec<ClassInfo>)
    requires
        i < tree.size(),
    ensures
        final(out).deep_view() == old(out).deep_view() + cpp_namespace_at(
            tree@,
            source@,
            i as int,
        ),
{
    let ghost base = out.deep_view();
    if tree.kind_is(i, "namespace_definition") {
        push_plain_class(tree, source, i, "namespace", out);
    }
    proof {
        assert(out.deep_view() =~= base + cpp_namespace_at(tree@, source@, i as int));
    }
}

/// The adapter for C++.
#[derive(Debug, Clone, Copy)]
pub struct CppAdapter;

impl CppAdapter {
    /// The adapter.
    pub fn new() -> (a: Self) {
        CppAdapter
    }

    /// The grammar that this adapter parses with.
    pub fn grammar(&self) -> (g: Grammar)
        ensures
            g == Grammar::Cpp,
    {
        Grammar::Cpp
    }

    /// Parses a source file. There is always a tree.
    pub fn parse(&self, source: &[u8]) -> (r: Option<SyntaxTree>)
        ensures
            match r {
                Some(t) => t.wf() && t.size() >= 1 && t@ == parsed_model(Grammar::Cpp, source@),
                None => false,
            },
    {
        parse_with(self.grammar(), source)
    }

    /// The functions of a parsed file.
    pub fn extract_functions(&self, tree: &SyntaxTree, source: &[u8]) -> (out: Vec<FunctionInfo>)
        ensures
            out.deep_view() == functions_spec(Language::Cpp, tree@, source@),
    {
        extract_functions(Language::Cpp, tree, source)
    }

    /// The imports of a parsed file.
    pub fn extract_imports(&self, tree: &SyntaxTree, source: &[u8]) -> (out: Vec<ImportInfo>)
        ensures
            out.deep_view() == imports_spec(Language::Cpp, tree@, source@),
    {
        extract_imports(Language::Cpp, tree, source)
    }

    /// The exports of a parsed file.
    pub fn extract_exports(&self, tree: &SyntaxTree, source: &[u8]) -> (out: Vec<ExportInfo>)
        ensures
            out.deep_view() == exports_spec(Language::Cpp, tree@, source@),
    {
        extract_exports(Language::Cpp, tree, source)
    }

    /// The classes of a parsed file.
    pub fn extract_classes(&self, tree: &SyntaxTree, source: &[u8]) -> (out: Vec<ClassInfo>)
        ensures
            out.deep_view() == classes_spec(Language::Cpp, tree@, source@),
    {
        extract_classes(Language::Cpp, tree, source)
    }
}

} // verus!
