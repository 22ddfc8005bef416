//! The Rust adapter. An item is exported when it is `pub` and stands
//! outside every `impl` block; a function inside `impl T` is named
//! `T::function`.

use crate::languages::collect::{
    classes_spec, exports_spec, extract_classes, extract_exports, extract_functions,
    extract_imports, functions_spec, imports_spec,
};
use crate::languages::facts::{
    field_text, field_text_spec, ClassFact, ClassInfo, ExportFact, ExportInfo, FunctionFact,
    FunctionInfo, ImportFact, ImportInfo,
};
use crate::parser::{parse_with, parsed_model, Grammar};
use crate::syntax::{ints, SyntaxTree, TreeModel};
use crate::text::{chars_of, contains_seq, owned, push_str, str_contains, string_of};
use crate::traverser::Language;
use vstd::prelude::*;

verus! {

/// The type of the nearest `impl` block around node `i`, where that
/// block names one.
pub open spec fn rust_impl_type(t: TreeModel, src: Seq<u8>, i: int) -> Option<Seq<char>> {
    match t.ancestor_of_kind(i, "impl_item"@, t.nodes().len()) {
        Some(b) => field_text_spec(t, src, b, "type"@),
        None => None,
    }
}

/// The type of the nearest `impl` block around node `i`.
pub fn get_impl_type(tree: &SyntaxTree, source: &[u8], i: usize) -> (r: Option<String>)
    requires
        i < tree.size(),
    ensures
        r.deep_view() == rust_impl_type(tree@, source@, i as int),
{
    match tree.find_ancestor_of_type(i, "impl_item") {
        Some(b) => field_text(tree, source, b, "type"),
        None => None,
    }
}

/// Whether node `i` stands inside an `impl` block.
pub open spec fn rust_inside_impl(t: TreeModel, i: int) -> bool {
    t.ancestor_of_kind(i, "impl_item"@, t.nodes().len()).is_some()
}

/// Whether node `i` stands inside an `impl` block.
pub fn is_inside_impl(tree: &SyntaxTree, i: usize) -> (r: bool)
    requires
        i < tree.size(),
    ensures
        r == rust_inside_impl(tree@, i as int),
{
    tree.find_ancestor_of_type(i, "impl_item").is_some()
}

/// Whether node `i` carries a visibility modifier that says `pub`.
pub open spec fn rust_is_pub(t: TreeModel, src: Seq<u8>, i: int) -> bool {
    match t.child_of_kind(i, "visibility_modifier"@) {
        Some(v) => contains_seq(t.text(src, v), "pub"@),
        None => false,
    }
}

/// Whether node `i` carries a visibility modifier that says `pub`.
pub fn has_pub_visibility(tree: &SyntaxTree, source: &[u8], i: usize) -> (r: bool)
    requires
        i < tree.size(),
    ensures
        r == rust_is_pub(tree@, source@, i as int),
{
    match tree.find_child_of_type(i, "visibility_modifier") {
        Some(v) => {
            let text = tree.node_text(source, v);
            str_contains(text.as_str(), "pub")
        },
        None => false,
    }
}

/// The parameter name that one child of a parameter list gives: the
/// pattern of a parameter, or the text of a `self` or variadic
/// parameter.
pub open spec fn rust_param_at(t: TreeModel, src: Seq<u8>, c: int) -> Seq<Seq<char>> {
    if t.kind(c) == "parameter"@ {
        match field_text_spec(t, src, c, "pattern"@) {
            Some(p) => seq![p],
            None => Seq::empty(),
        }
    } else if t.kind(c) == "self_parameter"@ || t.kind(c) == "variadic_parameter"@ {
        seq![t.text(src, c)]
    } else {
        Seq::empty()
    }
}

/// The parameter names that the first `n` of `kids` give.
pub open spec fn rust_params_upto(t: TreeModel, src: Seq<u8>, kids: Seq<int>, n: int) -> Seq<
    Seq<char>,
>
    decreases n,
{
    if n <= 0 {
        Seq::empty()
    } else {
        rust_params_upto(t, src, kids, n - 1) + rust_param_at(t, src, kids[n - 1])
    }
}

/// The parameter names of the parameter list `p`.
pub open spec fn rust_params(t: TreeModel, src: Seq<u8>, p: int) -> Seq<Seq<char>> {
    rust_params_upto(t, src, t.children(p), t.children(p).len() as int)
}

/// The parameter names of the parameter list `p`.
pub fn extract_rust_params(tree: &SyntaxTree, source: &[u8], p: usize) -> (out: Vec<String>)
    requires
        p < tree.size(),
    ensures
        out.deep_view() == rust_params(tree@, source@, p as int),
{
    let kids = tree.children_of(p);
    let mut out: Vec<String> = Vec::new();
    let mut k: usize = 0;
    proof {
        assert(out.deep_view() =~= Seq::<Seq<char>>::empty());
    }
    while k < kids.len()
        invariant
            k <= kids.len(),
            ints(kids@) == tree.children(p as int),
            forall|j: int| 0 <= j < kids.len() ==> #[trigger] kids@[j] < tree.size(),
            out.deep_view() == rust_params_upto(tree@, source@, ints(kids@), k as int),
        decreases kids.len() - k,
    {
        let c = kids[k];
        let ghost before = out.deep_view();
        proof {
            assert(ints(kids@)[k as int] == c as int);
        }
        if tree.kind_is(c, "parameter") {
            match field_text(tree, source, c, "pattern") {
                Some(pat) => {
                    out.push(pat);
                    proof {
                        assert(out.deep_view() =~= before + seq![pat@]);
                    }
                },
                None => {},
            }
        } else if tree.kind_is(c, "self_parameter") || tree.kind_is(c, "variadic_parameter") {
            out.push(tree.node_text(source, c));
            proof {
                assert(out.deep_view() =~= before + seq![tree.text(source@, c as int)]);
            }
        }
        proof {
            assert(out.deep_view() =~= before + rust_param_at(tree@, source@, c as int));
        }
        k += 1;
    }
    out
}

/// The name under which a function is recorded: `Type::name` inside an
/// `impl` block that names its type, else the bare name.
pub open spec fn rust_qualified(impl_type: Option<Seq<char>>, name: Seq<char>) -> Seq<char> {
    match impl_type {
        Some(ty) => ty + "::"@ + name,
        None => name,
    }
}

/// The parameter names of node `i`, from the list under its field
/// `parameters`.
pub open spec fn rust_params_of(t: TreeModel, src: Seq<u8>, i: int) -> Seq<Seq<char>> {
    match t.child_by_field(i, "parameters"@) {
        Some(p) => rust_params(t, src, p),
        None => Seq::empty(),
    }
}

/// The function that node `i` declares: a function item with a name.
pub open spec fn rust_function_at(t: TreeModel, src: Seq<u8>, i: int) -> Seq<FunctionFact> {
    if t.kind(i) == "function_item"@ {
        match field_text_spec(t, src, i, "name"@) {
            Some(name) => seq![
                FunctionFact {
                    name: rust_qualified(rust_impl_type(t, src, i), name),
                    start_line: t.nodes()[i].start_line,
                    end_line: t.nodes()[i].end_line,
                    params: rust_params_of(t, src, i),
                    is_exported: rust_is_pub(t, src, i),
                },
            ],
            None => Seq::empty(),
        }
    } else {
        Seq::empty()
    }
}

/// Appends the function that node `i` declares.
pub fn push_rust_function(
    tree: &SyntaxTree,
    source: &[u8],
    i: usize,
    out: &mut Vec<FunctionInfo>,
)
    requires
        i < tree.size(),
    ensures
        final(out).deep_view() == old(out).deep_view() + rust_function_at(
            tree@,
            source@,
            i as int,
        ),
{
    let ghost before = out.deep_view();
    if tree.kind_is(i, "function_item") {
        match field_text(tree, source, i, "name") {
            Some(bare) => {
                let name = match get_impl_type(tree, source, i) {
                    Some(ty) => {
                        let mut buf = chars_of(ty.as_str());
                        push_str(&mut buf, "::");
                        push_str(&mut buf, bare.as_str());
                        string_of(&buf)
                    },
                    None => bare,
                };
                let params = match tree.child_by_field_name(i, "parameters") {
                    Some(p) => extract_rust_params(tree, source, p),
                    None => Vec::new(),
                };
                proof {
                    assert(params.deep_view() =~= rust_params_of(tree@, source@, i as int));
                }
                let is_exported = has_pub_visibility(tree, source, i);
                let node = tree.node(i);
                let info = FunctionInfo {
                    name,
                    start_line: node.start_line,
                    end_line: node.end_line,
                    params,
                    is_exported,
                };
                out.push(info);
                proof {
                    assert(out.deep_view() =~= before + seq![info.deep_view()]);
                }
            },
            None => {},
        }
    }
    proof {
        assert(out.deep_view() =~= before + rust_function_at(tree@, source@, i as int));
    }
}

/// The symbol that one child of a use list gives.
pub open spec fn rust_use_symbol_at(t: TreeModel, src: Seq<u8>, c: int) -> Seq<Seq<char>> {
    if t.kind(c) == "identifier"@ || t.kind(c) == "self"@ {
        seq![t.text(src, c)]
    } else if t.kind(c) == "scoped_identifier"@ {
        match field_text_spec(t, src, c, "name"@) {
            Some(n) => seq![n],
            None => Seq::empty(),
        }
    } else {
        Seq::empty()
    }
}

/// The symbols that the first `n` of `kids` give.
pub open spec fn rust_use_symbols_upto(t: TreeModel, src: Seq<u8>, kids: Seq<int>, n: int) -> Seq<
    Seq<char>,
>
    decreases n,
{
    if n <= 0 {
        Seq::empty()
    } else {
        rust_use_symbols_upto(t, src, kids, n - 1) + rust_use_symbol_at(t, src, kids[n - 1])
    }
}

/// The symbols of the use list `list`.
pub open spec fn rust_use_symbols(t: TreeModel, src: Seq<u8>, list: int) -> Seq<Seq<char>> {
    rust_use_symbols_upto(t, src, t.children(list), t.children(list).len() as int)
}

/// Appends the symbols of the use list `list`.
pub fn extract_use_list_symbols(
    tree: &SyntaxTree,
    source: &[u8],
    list: usize,
    symbols: &mut Vec<String>,
)
    requires
        list < tree.size(),
    ensures
        final(symbols).deep_view() == old(symbols).deep_view() + rust_use_symbols(
            tree@,
            source@,
            list as int,
        ),
{
    let ghost base = symbols.deep_view();
    let kids = tree.children_of(list);
    let mut k: usize = 0;
    proof {
        assert(symbols.deep_view() =~= base + Seq::<Seq<char>>::empty());
    }
    while k < kids.len()
        invariant
            k <= kids.len(),
            ints(kids@) == tree.children(list as int),
            forall|j: int| 0 <= j < kids.len() ==> #[trigger] kids@[j] < tree.size(),
            symbols.deep_view() == base + rust_use_symbols_upto(
                tree@,
                source@,
                ints(kids@),
                k as int,
            ),
        decreases kids.len() - k,
    {
        let c = kids[k];
        let ghost before = symbols.deep_view();
        proof {
            assert(ints(kids@)[k as int] == c as int);
        }
        if tree.kind_is(c, "identifier") || tree.kind_is(c, "self") {
            symbols.push(tree.node_text(source, c));
            proof {
                assert(symbols.deep_view() =~= before + seq![tree.text(source@, c as int)]);
            }
        } else if tree.kind_is(c, "scoped_identifier") {
            match field_text(tree, source, c, "name") {
                Some(n) => {
                    symbols.push(n);
                    proof {
                        assert(symbols.deep_view() =~= before + seq![n@]);
                    }
                },
                None => {},
            }
        }
        proof {
            let step = rust_use_symbol_at(tree@, source@, c as int);
            assert(symbols.deep_view() =~= before + step);
            assert(base + rust_use_symbols_upto(tree@, source@, ints(kids@), k + 1) =~= (base
                + rust_use_symbols_upto(tree@, source@, ints(kids@), k as int)) + step);
        }
        k += 1;
    }
}

/// What a scoped child of a use declaration adds to the names: the
/// symbols of its use list, or else its own name.
pub open spec fn rust_scoped_names(t: TreeModel, src: Seq<u8>, c: int) -> Seq<Seq<char>> {
    match t.child_of_kind(c, "use_list"@) {
        Some(list) => rust_use_symbols(t, src, list),
        None => match field_text_spec(t, src, c, "name"@) {
            Some(n) => seq![n],
            None => Seq::empty(),
        },
    }
}

/// The source and names that the children `kids` of a use declaration
/// give, with `names` collected so far. The first scoped path or plain
/// identifier ends the walk; use lists met before add their symbols.
pub open spec fn rust_use_tree(
    t: TreeModel,
    src: Seq<u8>,
    kids: Seq<int>,
    names: Seq<Seq<char>>,
) -> (Seq<char>, Seq<Seq<char>>)
    decreases kids.len(),
{
    if kids.len() == 0 {
        (Seq::empty(), names)
    } else {
        let c = kids[0];
        if t.kind(c) == "scoped_identifier"@ || t.kind(c) == "scoped_use_list"@ {
            (
                match field_text_spec(t, src, c, "path"@) {
                    Some(p) => p,
                    None => Seq::empty(),
                },
                names + rust_scoped_names(t, src, c),
            )
        } else if t.kind(c) == "identifier"@ {
            (t.text(src, c), names.push(t.text(src, c)))
        } else if t.kind(c) == "use_list"@ {
            rust_use_tree(t, src, kids.drop_first(), names + rust_use_symbols(t, src, c))
        } else {
            rust_use_tree(t, src, kids.drop_first(), names)
        }
    }
}

/// The import that node `i` declares: a use declaration whose tree gives
/// a source.
pub open spec fn rust_import_at(t: TreeModel, src: Seq<u8>, i: int) -> Seq<ImportFact> {
    if t.kind(i) == "use_declaration"@ {
        let r = rust_use_tree(t, src, t.children(i), Seq::empty());
        if r.0.len() > 0 {
            seq![ImportFact { source: r.0, names: r.1, is_default: false }]
        } else {
            Seq::empty()
        }
    } else {
        Seq::empty()
    }
}

/// Reads the tree of the use declaration `i` into a source and names.
pub fn parse_use_tree(tree: &SyntaxTree, source: &[u8], i: usize) -> (r: (String, Vec<String>))
    requires
        i < tree.size(),
    ensures
        (r.0@, r.1.deep_view()) == rust_use_tree(
            tree@,
            source@,
            tree.children(i as int),
            Seq::empty(),
        ),
{
    let kids = tree.children_of(i);
    let mut names: Vec<String> = Vec::new();
    let mut k: usize = 0;
    proof {
        assert(names.deep_view() =~= Seq::<Seq<char>>::empty());
        assert(ints(kids@).skip(0) =~= ints(kids@));
    }
    while k < kids.len()
        invariant
            k <= kids.len(),
            ints(kids@) == tree.children(i as int),
            forall|j: int| 0 <= j < kids.len() ==> #[trigger] kids@[j] < tree.size(),
            rust_use_tree(tree@, source@, tree.children(i as int), Seq::empty()) == rust_use_tree(
                tree@,
                source@,
                ints(kids@).skip(k as int),
                names.deep_view(),
            ),
        decreases kids.len() - k,
    {
        let c = kids[k];
        let ghost before = names.deep_view();
        proof {
            assert(ints(kids@).skip(k as int)[0] == c as int);
            assert(ints(kids@).skip(k as int).drop_first() =~= ints(kids@).skip(k + 1));
        }
        if tree.kind_is(c, "scoped_identifier") || tree.kind_is(c, "scoped_use_list") {
            let path = match field_text(tree, source, c, "path") {
                Some(p) => p,
                None => String::new(),
            };
            match tree.find_child_of_type(c, "use_list") {
                Some(list) => {
                    extract_use_list_symbols(tree, source, list, &mut names);
                },
                None => {
                    match field_text(tree, source, c, "name") {
                        Some(n) => {
                            names.push(n);
                            proof {
                                assert(names.deep_view() =~= before + seq![n@]);
                            }
                        },
                        None => {
                            proof {
                                assert(names.deep_view() =~= before + Seq::<Seq<char>>::empty());
                            }
                        },
                    }
                },
            }
            return (path, names);
        } else if tree.kind_is(c, "identifier") {
            let text = tree.node_text(source, c);
            names.push(text.clone());
            proof {
                assert(names.deep_view() =~= before.push(text@));
            }
            return (text, names);
        } else if tree.kind_is(c, "use_list") {
            extract_use_list_symbols(tree, source, c, &mut names);
        }
        k += 1;
    }
    (String::new(), names)
}

/// Appends the import that node `i` declares.
pub fn push_rust_import(tree: &SyntaxTree, source: &[u8], i: usize, out: &mut Vec<ImportInfo>)
    requires
        i < tree.size(),
    ensures
        final(out).deep_view() == old(out).deep_view() + rust_import_at(tree@, source@, i as int),
{
    let ghost before = out.deep_view();
    if tree.kind_is(i, "use_declaration") {
        let (src, names) = parse_use_tree(tree, source, i);
        if src.as_str().unicode_len() > 0 {
            let info = ImportInfo { source: src, names, is_default: false };
            out.push(info);
            proof {
                assert(out.deep_view() =~= before + seq![info.deep_view()]);
            }
        }
    }
    proof {
        assert(out.deep_view() =~= before + rust_import_at(tree@, source@, i as int));
    }
}

/// The kind under which an item is exported, by the kind of its node.
pub open spec fn rust_export_kind(kind: Seq<char>) -> Option<Seq<char>> {
    if kind == "function_item"@ {
        Some("function"@)
    } else if kind == "struct_item"@ {
        Some("struct"@)
    } else if kind == "enum_item"@ {
        Some("enum"@)
    } else if kind == "trait_item"@ {
        Some("trait"@)
    } else if kind == "type_item"@ {
        Some("type"@)
    } else if kind == "mod_item"@ {
        Some("module"@)
    } else {
        None
    }
}

/// The kind under which node `i` is exported, by the kind of the node.
fn export_kind(tree: &SyntaxTree, i: usize) -> (r: Option<String>)
    requires
        i < tree.size(),
    ensures
        r.deep_view() == rust_export_kind(tree.kind(i as int)),
{
    if tree.kind_is(i, "function_item") {
        Some(owned("function"))
    } else if tree.kind_is(i, "struct_item") {
        Some(owned("struct"))
    } else if tree.kind_is(i, "enum_item") {
        Some(owned("enum"))
    } else if tree.kind_is(i, "trait_item") {
        Some(owned("trait"))
    } else if tree.kind_is(i, "type_item") {
        Some(owned("type"))
    } else if tree.kind_is(i, "mod_item") {
        Some(owned("module"))
    } else {
        None
    }
}

/// The export that node `i` declares: a `pub` item outside every `impl`
/// block, of an exported kind, with a name.
pub open spec fn rust_export_at(t: TreeModel, src: Seq<u8>, i: int) -> Seq<ExportFact> {
    if rust_is_pub(t, src, i) && !rust_inside_impl(t, i) {
        match rust_export_kind(t.kind(i)) {
            Some(kind) => match field_text_spec(t, src, i, "name"@) {
                Some(name) => seq![ExportFact { name, kind }],
                None => Seq::empty(),
            },
            None => Seq::empty(),
        }
    } else {
        Seq::empty()
    }
}

/// A function inside an `impl` block that names its type is recorded as
/// `Type::name` and gives no export, whatever its visibility.
pub proof fn law_impl_function(
    t: TreeModel,
    src: Seq<u8>,
    i: int,
    ty: Seq<char>,
    name: Seq<char>,
)
    requires
        t.kind(i) == "function_item"@,
        rust_impl_type(t, src, i) == Some(ty),
        field_text_spec(t, src, i, "name"@) == Some(name),
    ensures
        rust_function_at(t, src, i).len() == 1,
        rust_function_at(t, src, i)[0].name == ty + "::"@ + name,
        rust_export_at(t, src, i) == Seq::<ExportFact>::empty(),
{
}

/// Appends the export that node `i` declares.
pub fn push_rust_export(tree: &SyntaxTree, source: &[u8], i: usize, out: &mut Vec<ExportInfo>)
    requires
        i < tree.size(),
    ensures
        final(out).deep_view() == old(out).deep_view() + rust_export_at(tree@, source@, i as int),
{
    let ghost before = out.deep_view();
    if has_pub_visibility(tree, source, i) && !is_inside_impl(tree, i) {
        match export_kind(tree, i) {
            Some(kind) => {
                match field_text(tree, source, i, "name") {
                    Some(name) => {
                        let info = ExportInfo { name, kind };
                        out.push(info);
                        proof {
                            assert(out.deep_view() =~= before + seq![info.deep_view()]);
                        }
                    },
                    None => {},
                }
            },
            None => {},
        }
    }
    proof {
        assert(out.deep_view() =~= before + rust_export_at(tree@, source@, i as int));
    }
}

/// The kind under which a node is recorded as a class.
pub open spec fn rust_class_kind(kind: Seq<char>) -> Option<Seq<char>> {
    if kind == "struct_item"@ {
        Some("struct"@)
    } else if kind == "enum_item"@ {
        Some("enum"@)
    } else if kind == "trait_item"@ {
        Some("trait"@)
    } else {
        None
    }
}

/// The class that node `i` declares: a struct, enum or trait with a
/// name.
pub open spec fn rust_class_at(t: TreeModel, src: Seq<u8>, i: int) -> Seq<ClassFact> {
    match rust_class_kind(t.kind(i)) {
        Some(kind) => match field_text_spec(t, src, i, "name"@) {
            Some(name) => seq![
                ClassFact {
                    name,
                    start_line: t.nodes()[i].start_line,
                    end_line: t.nodes()[i].end_line,
                    methods: Seq::empty(),
                    kind,
                },
            ],
            None => Seq::empty(),
        },
        None => Seq::empty(),
    }
}

/// Appends the class that node `i` declares.
pub fn push_rust_class(tree: &SyntaxTree, source: &[u8], i: usize, out: &mut Vec<ClassInfo>)
    requires
        i < tree.size(),
    ensures
        final(out).deep_view() == old(out).deep_view() + rust_class_at(tree@, source@, i as int),
{
    let ghost before = out.deep_view();
    let kind: Option<String> = if tree.kind_is(i, "struct_item") {
        Some(owned("struct"))
    } else if tree.kind_is(i, "enum_item") {
        Some(owned("enum"))
    } else if tree.kind_is(i, "trait_item") {
        Some(owned("trait"))
    } else {
        None
    };
    match kind {
        Some(kind) => {
            match field_text(tree, source, i, "name") {
                Some(name) => {
                    let node = tree.node(i);
                    let methods: Vec<String> = Vec::new();
                    proof {
                        assert(methods.deep_view() =~= Seq::<Seq<char>>::empty());
                    }
                    let info = ClassInfo {
                        name,
                        start_line: node.start_line,
                        end_line: node.end_line,
                        methods,
                        kind,
                    };
                    out.push(info);
                    proof {
                        assert(out.deep_view() =~= before + seq![info.deep_view()]);
                    }
                },
                None => {},
            }
        },
        None => {},
    }
    proof {
        assert(out.deep_view() =~= before + rust_class_at(tree@, source@, i as int));
    }
}

/// The adapter for Rust.
#[derive(Debug, Clone, Copy)]
pub struct RustAdapter;

impl RustAdapter {
    /// The adapter.
    pub fn new() -> (a: Self) {
        RustAdapter
    }

    /// The grammar that this adapter parses with.
    pub fn grammar(&self) -> (g: Grammar)
        ensures
            g == Grammar::Rust,
    {
        Grammar::Rust
    }

    /// Parses a source file. There is always a tree.
    pub fn parse(&self, source: &[u8]) -> (r: Option<SyntaxTree>)
        ensures
            match r {
                Some(t) => t.wf() && t.size() >= 1 && t@ == parsed_model(Grammar::Rust, source@),
                None => false,
            },
    {
        parse_with(self.grammar(), source)
    }

    /// The functions of a parsed file.
    pub fn extract_functions(&self, tree: &SyntaxTree, source: &[u8]) -> (out: Vec<FunctionInfo>)
        ensures
            out.deep_view() == functions_spec(Language::Rust, tree@, source@),
    {
        extract_functions(Language::Rust, tree, source)
    }

    /// The imports of a parsed file.
    pub fn extract_imports(&self, tree: &SyntaxTree, source: &[u8]) -> (out: Vec<ImportInfo>)
        ensures
            out.deep_view() == imports_spec(Language::Rust, tree@, source@),
    {
        extract_imports(Language::Rust, tree, source)
    }

    /// The exports of a parsed file.
    pub fn extract_exports(&self, tree: &SyntaxTree, source: &[u8]) -> (out: Vec<ExportInfo>)
        ensures
            out.deep_view() == exports_spec(Language::Rust, tree@, source@),
    {
        extract_exports(Language::Rust, tree, source)
    }

    /// The classes of a parsed file.
    pub fn extract_classes(&self, tree: &SyntaxTree, source: &[u8]) -> (out: Vec<ClassInfo>)
        ensures
            out.deep_view() == classes_spec(Language::Rust, tree@, source@),
    {
        extract_classes(Language::Rust, tree, source)
    }
}

} // verus!
