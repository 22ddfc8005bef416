//! The Go adapter. A name is exported when it begins with an upper-case
//! letter.

use crate::languages::collect::{
    classes_spec, exports_spec, extract_classes, extract_exports, extract_functions,
    extract_imports, functions_spec, imports_spec,
};
use crate::languages::facts::{
    field_text, field_text_spec, strip_quotes, strip_quotes_spec, ClassFact, ClassInfo, ExportFact,
    ExportInfo, FunctionFact, FunctionInfo, ImportFact, ImportInfo,
};
use crate::parser::{parse_with, parsed_model, Grammar};
use crate::syntax::{ints, SyntaxTree, TreeModel};
use crate::text::{
    char_is_uppercase, chars_of, is_uppercase, owned, pieces_view, split_chars, split_on, string_of,
};
use crate::traverser::Language;
use vstd::prelude::*;

verus! {

/// Whether a Go name is visible outside its package.
pub open spec fn is_go_exported_spec(name: Seq<char>) -> bool {
    name.len() > 0 && is_uppercase(name[0])
}

/// Whether a Go name is visible outside its package.
pub fn is_go_exported(name: &str) -> (r: bool)
    ensures
        r == is_go_exported_spec(name@),
{
    let c = chars_of(name);
    c.len() > 0 && char_is_uppercase(c[0])
}

/// The parameter name that one child of a parameter list gives: the
/// first identifier of a parameter declaration.
pub open spec fn go_param_at(t: TreeModel, src: Seq<u8>, c: int) -> Seq<Seq<char>> {
    if t.kind(c) == "parameter_declaration"@ || t.kind(c) == "variadic_parameter_declaration"@ {
        match t.child_of_kind(c, "identifier"@) {
            Some(x) => seq![t.text(src, x)],
            None => Seq::empty(),
        }
    } else {
        Seq::empty()
    }
}

/// The parameter names that the first `n` of `kids` give.
pub open spec fn go_params_upto(t: TreeModel, src: Seq<u8>, kids: Seq<int>, n: int) -> Seq<
    Seq<char>,
>
    decreases n,
{
    if n <= 0 {
        Seq::empty()
    } else {
        go_params_upto(t, src, kids, n - 1) + go_param_at(t, src, kids[n - 1])
    }
}

/// The parameter names of the parameter list `p`.
pub open spec fn go_params(t: TreeModel, src: Seq<u8>, p: int) -> Seq<Seq<char>> {
    go_params_upto(t, src, t.children(p), t.children(p).len() as int)
}

/// The parameter names of the parameter list `p`.
pub fn extract_go_params(tree: &SyntaxTree, source: &[u8], p: usize) -> (out: Vec<String>)
    requires
        p < tree.size(),
    ensures
        out.deep_view() == go_params(tree@, source@, p as int),
{
    let kids = tree.children_of(p);
    let mut out: Vec<String> = Vec::new();
    let mut k: usize = 0;
    proof {
        assert(out.deep_view() =~= Seq::<Seq<char>>::empty());
    }
    while k < kids.len()
        invariant
            k <= kids.len(),
            ints(kids@) == tree.children(p as int),
            forall|j: int| 0 <= j < kids.len() ==> #[trigger] kids@[j] < tree.size(),
            out.deep_view() == go_params_upto(tree@, source@, ints(kids@), k as int),
        decreases kids.len() - k,
    {
        let c = kids[k];
        let ghost before = out.deep_view();
        proof {
            assert(ints(kids@)[k as int] == c as int);
        }
        if tree.kind_is(c, "parameter_declaration") || tree.kind_is(
            c,
            "variadic_parameter_declaration",
        ) {
            match tree.find_child_of_type(c, "identifier") {
                Some(x) => {
                    out.push(tree.node_text(source, x));
                    proof {
                        assert(out.deep_view() =~= before + seq![tree.text(source@, x as int)]);
                    }
                },
                None => {},
            }
        }
        proof {
            assert(out.deep_view() =~= before + go_param_at(tree@, source@, c as int));
        }
        k += 1;
    }
    out
}

/// The parameter names of node `i`, from the list under its field
/// `parameters`.
pub open spec fn go_params_of(t: TreeModel, src: Seq<u8>, i: int) -> Seq<Seq<char>> {
    match t.child_by_field(i, "parameters"@) {
        Some(p) => go_params(t, src, p),
        None => Seq::empty(),
    }
}

/// The function that node `i` declares: a function or method declaration
/// with a name.
pub open spec fn go_function_at(t: TreeModel, src: Seq<u8>, i: int) -> Seq<FunctionFact> {
    if t.kind(i) == "function_declaration"@ || t.kind(i) == "method_declaration"@ {
        match field_text_spec(t, src, i, "name"@) {
            Some(name) => seq![
                FunctionFact {
                    name,
                    start_line: t.nodes()[i].start_line,
                    end_line: t.nodes()[i].end_line,
                    params: go_params_of(t, src, i),
                    is_exported: is_go_exported_spec(name),
                },
            ],
            None => Seq::empty(),
        }
    } else {
        Seq::empty()
    }
}

/// Appends the function that node `i` declares.
pub fn push_go_function(tree: &SyntaxTree, source: &[u8], i: usize, out: &mut Vec<FunctionInfo>)
    requires
        i < tree.size(),
    ensures
        final(out).deep_view() == old(out).deep_view() + go_function_at(
            tree@,
            source@,
            i as int,
        ),
{
    let ghost before = out.deep_view();
    if tree.kind_is(i, "function_declaration") || tree.kind_is(i, "method_declaration") {
        match field_text(tree, source, i, "name") {
            Some(name) => {
                let params = match tree.child_by_field_name(i, "parameters") {
                    Some(p) => extract_go_params(tree, source, p),
                    None => Vec::new(),
                };
                proof {
                    assert(params.deep_view() =~= go_params_of(tree@, source@, i as int));
                }
                let is_exported = is_go_exported(name.as_str());
                let node = tree.node(i);
                let info = FunctionInfo {
                    name,
                    start_line: node.start_line,
                    end_line: node.end_line,
                    params,
                    is_exported,
                };
                out.push(info);
                proof {
                    assert(out.deep_view() =~= before + seq![info.deep_view()]);
                }
            },
            None => {},
        }
    }
    proof {
        assert(out.deep_view() =~= before + go_function_at(tree@, source@, i as int));
    }
}

/// Whether a child of an import spec names the alias of the import.
pub open spec fn is_go_alias_kind(kind: Seq<char>) -> bool {
    kind == "package_identifier"@ || kind == "identifier"@ || kind == "dot"@ || kind
        == "blank_identifier"@
}

/// The last of `kids` that is a string literal.
pub open spec fn go_last_path(t: TreeModel, kids: Seq<int>) -> Option<int>
    decreases kids.len(),
{
    if kids.len() == 0 {
        None
    } else if t.kind(kids.last()) == "interpreted_string_literal"@ {
        Some(kids.last())
    } else {
        go_last_path(t, kids.drop_last())
    }
}

/// The last of `kids` that names an alias.
pub open spec fn go_last_alias(t: TreeModel, kids: Seq<int>) -> Option<int>
    decreases kids.len(),
{
    if kids.len() == 0 {
        None
    } else if t.kind(kids.last()) != "interpreted_string_literal"@ && is_go_alias_kind(
        t.kind(kids.last()),
    ) {
        Some(kids.last())
    } else {
        go_last_alias(t, kids.drop_last())
    }
}

/// The last piece of `s` when split at `/`.
pub open spec fn last_path_piece(s: Seq<char>) -> Seq<char> {
    split_on(s, '/').last()
}

/// The import that node `i` declares: an import spec with a path. The
/// imported name is the alias, or the last piece of the path.
pub open spec fn go_import_at(t: TreeModel, src: Seq<u8>, i: int) -> Seq<ImportFact> {
    if t.kind(i) == "import_spec"@ {
        match go_last_path(t, t.children(i)) {
            Some(p) => {
                let source = strip_quotes_spec(t.text(src, p));
                let symbol = match go_last_alias(t, t.children(i)) {
                    Some(a) => t.text(src, a),
                    None => last_path_piece(source),
                };
                seq![ImportFact { source, names: seq![symbol], is_default: false }]
            },
            None => Seq::empty(),
        }
    } else {
        Seq::empty()
    }
}

/// Whether node `c` names the alias of an import.
fn go_alias_kind(tree: &SyntaxTree, c: usize) -> (r: bool)
    requires
        c < tree.size(),
    ensures
        r == is_go_alias_kind(tree.kind(c as int)),
{
    tree.kind_is(c, "package_identifier") || tree.kind_is(c, "identifier") || tree.kind_is(c, "dot")
        || tree.kind_is(c, "blank_identifier")
}

/// The last piece of `s` when split at `/`.
fn last_piece(s: &str) -> (out: String)
    ensures
        out@ == last_path_piece(s@),
{
    let c = chars_of(s);
    let pieces = split_chars(&c, '/');
    proof {
        assert(pieces_view(pieces@).last() == pieces@[pieces@.len() - 1]@);
    }
    string_of(&pieces[pieces.len() - 1])
}

/// Appends the import that node `i` declares.
pub fn push_go_import(tree: &SyntaxTree, source: &[u8], i: usize, out: &mut Vec<ImportInfo>)
    requires
        i < tree.size(),
    ensures
        final(out).deep_view() == old(out).deep_view() + go_import_at(tree@, source@, i as int),
{
    let ghost before = out.deep_view();
    if tree.kind_is(i, "import_spec") {
        let kids = tree.children_of(i);
        let mut path_node: Option<usize> = None;
        let mut alias_node: Option<usize> = None;
        let mut k: usize = 0;
        proof {
            assert(ints(kids@).take(0) =~= Seq::<int>::empty());
        }
        while k < kids.len()
            invariant
                k <= kids.len(),
                forall|j: int| 0 <= j < kids.len() ==> #[trigger] kids@[j] < tree.size(),
                match path_node {
                    Some(p) => p < tree.size() && go_last_path(tree@, ints(kids@).take(k as int))
                        == Some(p as int),
                    None => go_last_path(tree@, ints(kids@).take(k as int)).is_none(),
                },
                match alias_node {
                    Some(a) => a < tree.size() && go_last_alias(tree@, ints(kids@).take(k as int))
                        == Some(a as int),
                    None => go_last_alias(tree@, ints(kids@).take(k as int)).is_none(),
                },
            decreases kids.len() - k,
        {
            let c = kids[k];
            proof {
                let next = ints(kids@).take(k + 1);
                assert(next.drop_last() =~= ints(kids@).take(k as int));
                assert(next.last() == c as int);
            }
            if tree.kind_is(c, "interpreted_string_literal") {
                path_node = Some(c);
            } else if go_alias_kind(tree, c) {
                alias_node = Some(c);
            }
            k += 1;
        }
        proof {
            assert(ints(kids@).take(kids@.len() as int) =~= ints(kids@));
        }
        match path_node {
            Some(p) => {
                let text = tree.node_text(source, p);
                let src = strip_quotes(text.as_str());
                let symbol = match alias_node {
                    Some(a) => tree.node_text(source, a),
                    None => last_piece(src.as_str()),
                };
                let mut names: Vec<String> = Vec::new();
                names.push(symbol);
                proof {
                    assert(names.deep_view() =~= seq![symbol@]);
                }
                let info = ImportInfo { source: src, names, is_default: false };
                out.push(info);
                proof {
                    assert(out.deep_view() =~= before + seq![info.deep_view()]);
                }
            },
            None => {},
        }
    }
    proof {
        assert(out.deep_view() =~= before + go_import_at(tree@, source@, i as int));
    }
}

/// The kind under which a type spec is exported: by the kind of the node
/// under its field `type`.
pub open spec fn go_type_kind(t: TreeModel, i: int) -> Seq<char> {
    match t.child_by_field(i, "type"@) {
        Some(ty) => if t.kind(ty) == "struct_type"@ {
            "struct"@
        } else if t.kind(ty) == "interface_type"@ {
            "interface"@
        } else {
            "type"@
        },
        None => "type"@,
    }
}

/// The export that node `i` declares: an exported function or method, or
/// an exported type.
pub open spec fn go_export_at(t: TreeModel, src: Seq<u8>, i: int) -> Seq<ExportFact> {
    if t.kind(i) == "function_declaration"@ || t.kind(i) == "method_declaration"@ {
        match field_text_spec(t, src, i, "name"@) {
            Some(name) => if is_go_exported_spec(name) {
                seq![ExportFact { name, kind: "function"@ }]
            } else {
                Seq::empty()
            },
            None => Seq::empty(),
        }
    } else if t.kind(i) == "type_spec"@ {
        match field_text_spec(t, src, i, "name"@) {
            Some(name) => if is_go_exported_spec(name) {
                seq![ExportFact { name, kind: go_type_kind(t, i) }]
            } else {
                Seq::empty()
            },
            None => Seq::empty(),
        }
    } else {
        Seq::empty()
    }
}

/// A function or method whose name does not begin with an upper-case
/// letter is recorded as not exported and gives no export.
pub proof fn law_unexported_function(t: TreeModel, src: Seq<u8>, i: int, name: Seq<char>)
    requires
        t.kind(i) == "function_declaration"@ || t.kind(i) == "method_declaration"@,
        field_text_spec(t, src, i, "name"@) == Some(name),
        !is_go_exported_spec(name),
    ensures
        go_function_at(t, src, i).len() == 1,
        go_function_at(t, src, i)[0].name == name,
        !go_function_at(t, src, i)[0].is_exported,
        go_export_at(t, src, i) == Seq::<ExportFact>::empty(),
{
}

/// Every export of a node bears a name that begins with an upper-case
/// letter.
pub proof fn law_exports_are_capitalized(t: TreeModel, src: Seq<u8>, i: int)
    ensures
        forall|k: int|
            0 <= k < go_export_at(t, src, i).len() ==> is_go_exported_spec(
                (#[trigger] go_export_at(t, src, i)[k]).name,
            ),
{
}

/// Appends the export that node `i` declares.
pub fn push_go_export(tree: &SyntaxTree, source: &[u8], i: usize, out: &mut Vec<ExportInfo>)
    requires
        i < tree.size(),
    ensures
        final(out).deep_view() == old(out).deep_view() + go_export_at(tree@, source@, i as int),
{
    let ghost before = out.deep_view();
    if tree.kind_is(i, "function_declaration") || tree.kind_is(i, "method_declaration") {
        match field_text(tree, source, i, "name") {
            Some(name) => {
                if is_go_exported(name.as_str()) {
                    let info = ExportInfo { name, kind: owned("function") };
                    out.push(info);
                    proof {
                        assert(out.deep_view() =~= before + seq![info.deep_view()]);
                    }
                }
            },
            None => {},
        }
    } else if tree.kind_is(i, "type_spec") {
        match field_text(tree, source, i, "name") {
            Some(name) => {
                if is_go_exported(name.as_str()) {
                    let kind = match tree.child_by_field_name(i, "type") {
                        Some(ty) => {
                            if tree.kind_is(ty, "struct_type") {
                                owned("struct")
                            } else if tree.kind_is(ty, "interface_type") {
                                owned("interface")
                            } else {
                                owned("type")
                            }
                        },
                        None => owned("type"),
                    };
                    let info = ExportInfo { name, kind };
                    out.push(info);
                    proof {
                        assert(out.deep_view() =~= before + seq![info.deep_view()]);
                    }
                }
            },
            None => {},
        }
    }
    proof {
        assert(out.deep_view() =~= before + go_export_at(tree@, source@, i as int));
    }
}

/// The node whose lines a type spec is recorded with: its parent where
/// that is a type declaration, else the spec itself.
pub open spec fn go_decl_node(t: TreeModel, i: int) -> int {
    match t.nodes()[i].parent {
        Some(p) => if t.kind(p as int) == "type_declaration"@ {
            p as int
        } else {
            i
        },
        None => i,
    }
}

/// The class that node `i` declares: a type spec of a struct or an
/// interface, with a name.
pub open spec fn go_class_at(t: TreeModel, src: Seq<u8>, i: int) -> Seq<ClassFact> {
    if t.kind(i) == "type_spec"@ {
        match t.child_by_field(i, "type"@) {
            Some(ty) => if t.kind(ty) == "struct_type"@ || t.kind(ty) == "interface_type"@ {
                match field_text_spec(t, src, i, "name"@) {
                    Some(name) => seq![
                        ClassFact {
                            name,
                            start_line: t.nodes()[go_decl_node(t, i)].start_line,
                            end_line: t.nodes()[go_decl_node(t, i)].end_line,
                            methods: Seq::empty(),
                            kind: if t.kind(ty) == "struct_type"@ {
                                "struct"@
                            } else {
                                "interface"@
                            },
                        },
                    ],
                    None => Seq::empty(),
                }
            } else {
                Seq::empty()
            },
            None => Seq::empty(),
        }
    } else {
        Seq::empty()
    }
}

/// Appends the class that node `i` declares.
pub fn push_go_class(tree: &SyntaxTree, source: &[u8], i: usize, out: &mut Vec<ClassInfo>)
    requires
        i < tree.size(),
    ensures
        final(out).deep_view() == old(out).deep_view() + go_class_at(tree@, source@, i as int),
{
    let ghost before = out.deep_view();
    if tree.kind_is(i, "type_spec") {
        match tree.child_by_field_name(i, "type") {
            Some(ty) => {
                let is_struct = tree.kind_is(ty, "struct_type");
                if is_struct || tree.kind_is(ty, "interface_type") {
                    match field_text(tree, source, i, "name") {
                        Some(name) => {
                            let decl: usize = match tree.parent(i) {
                                Some(p) => if tree.kind_is(p, "type_declaration") {
                                    p
                                } else {
                                    i
                                },
                                None => i,
                            };
                            let node = tree.node(decl);
                            let methods: Vec<String> = Vec::new();
                            proof {
                                assert(methods.deep_view() =~= Seq::<Seq<char>>::empty());
                            }
                            let info = ClassInfo {
                                name,
                                start_line: node.start_line,
                                end_line: node.end_line,
                                methods,
                                kind: if is_struct {
                                    owned("struct")
                                } else {
                                    owned("interface")
                                },
                            };
                            out.push(info);
                            proof {
                                assert(out.deep_view() =~= before + seq![info.deep_view()]);
                            }
                        },
                        None => {},
                    }
                }
            },
            None => {},
        }
    }
    proof {
        assert(out.deep_view() =~= before + go_class_at(tree@, source@, i as int));
    }
}

/// The adapter for Go.
#[derive(Debug, Clone, Copy)]
pub struct GoAdapter;

impl GoAdapter {
    /// The adapter.
    pub fn new() -> (a: Self) {
        GoAdapter
    }

    /// The grammar that this adapter parses with.
    pub fn grammar(&self) -> (g: Grammar)
        ensures
            g == Grammar::Go,
    {
        Grammar::Go
    }

    /// Parses a source file. There is always a tree.
    pub fn parse(&self, source: &[u8]) -> (r: Option<SyntaxTree>)
        ensures
            match r {
                Some(t) => t.wf() && t.size() >= 1 && t@ == parsed_model(Grammar::Go, source@),
                None => false,
            },
    {
        parse_with(self.grammar(), source)
    }

    /// The functions of a parsed file.
    pub fn extract_functions(&self, tree: &SyntaxTree, source: &[u8]) -> (out: Vec<FunctionInfo>)
        ensures
            out.deep_view() == functions_spec(Language::Go, tree@, source@),
    {
        extract_functions(Language::Go, tree, source)
    }

    /// The imports of a parsed file.
    pub fn extract_imports(&self, tree: &SyntaxTree, source: &[u8]) -> (out: Vec<ImportInfo>)
        ensures
            out.deep_view() == imports_spec(Language::Go, tree@, source@),
    {
        extract_imports(Language::Go, tree, source)
    }

    /// The exports of a parsed file.
    pub fn extract_exports(&self, tree: &SyntaxTree, source: &[u8]) -> (out: Vec<ExportInfo>)
        ensures
            out.deep_view() == exports_spec(Language::Go, tree@, source@),
    {
        extract_exports(Language::Go, tree, source)
    }

    /// The classes of a parsed file.
    pub fn extract_classes(&self, tree: &SyntaxTree, source: &[u8]) -> (out: Vec<ClassInfo>)
        ensures
            out.deep_view() == classes_spec(Language::Go, tree@, source@),
    {
        extract_classes(Language::Go, tree, source)
    }
}

} // verus!
