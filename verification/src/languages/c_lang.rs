//! The C adapter, whose rules the C++ adapter shares. A function is
//! exported unless it is `static`; structs and enums are exported when
//! they have a body; a typedef exports the type it names. Exports are
//! unique by name.

use crate::languages::collect::{
    classes_spec, exports_spec, extract_classes, extract_exports, extract_functions,
    extract_imports, functions_spec, imports_spec,
};
use crate::languages::facts::{
    field_text, field_text_spec, ClassFact, ClassInfo, ExportFact, ExportInfo, FunctionFact,
    FunctionInfo, ImportFact, ImportInfo,
};
use crate::parser::{parse_with, parsed_model, Grammar};
use crate::syntax::{ints, SyntaxTree, TreeModel};
use crate::text::{
    chars_of, last_occurrence, owned, rfind_chars, skip_set, slice_chars, str_eq, string_of,
    trim_chars, trim_set, trim_start_set,
};
use crate::traverser::Language;
use vstd::prelude::*;

verus! {

/// Whether one of the first `n` of `kids` is the storage class
/// `static`.
pub open spec fn c_any_static(t: TreeModel, src: Seq<u8>, kids: Seq<int>, n: int) -> bool
    decreases n,
{
    if n <= 0 {
        false
    } else {
        c_any_static(t, src, kids, n - 1) || (t.kind(kids[n - 1]) == "storage_class_specifier"@
            && t.text(src, kids[n - 1]) == "static"@)
    }
}

/// Whether the function definition `i` is `static`.
pub open spec fn c_is_static(t: TreeModel, src: Seq<u8>, i: int) -> bool {
    c_any_static(t, src, t.children(i), t.children(i).len() as int)
}

/// What holds of a prefix holds of every longer one.
proof fn lemma_any_static_grows(t: TreeModel, src: Seq<u8>, kids: Seq<int>, a: int, b: int)
    requires
        a <= b,
        c_any_static(t, src, kids, a),
    ensures
        c_any_static(t, src, kids, b),
    decreases b - a,
{
    if a < b {
        lemma_any_static_grows(t, src, kids, a, b - 1);
    }
}

/// Whether the function definition `i` is `static`.
pub fn has_storage_class_static(tree: &SyntaxTree, source: &[u8], i: usize) -> (r: bool)
    requires
        i < tree.size(),
    ensures
        r == c_is_static(tree@, source@, i as int),
{
    let kids = tree.children_of(i);
    let mut k: usize = 0;
    while k < kids.len()
        invariant
            k <= kids.len(),
            ints(kids@) == tree.children(i as int),
            forall|j: int| 0 <= j < kids.len() ==> #[trigger] kids@[j] < tree.size(),
            !c_any_static(tree@, source@, ints(kids@), k as int),
        decreases kids.len() - k,
    {
        let c = kids[k];
        proof {
            assert(ints(kids@)[k as int] == c as int);
        }
        if tree.kind_is(c, "storage_class_specifier") {
            let text = tree.node_text(source, c);
            if str_eq(text.as_str(), "static") {
                proof {
                    lemma_any_static_grows(
                        tree@,
                        source@,
                        ints(kids@),
                        k + 1,
                        kids@.len() as int,
                    );
                }
                return true;
            }
        }
        k += 1;
    }
    false
}

/// What stands behind the last `::` of a name, or the whole name.
pub open spec fn bare_identifier_spec(text: Seq<char>) -> Seq<char> {
    let at = last_occurrence(text, "::"@, text.len() as int);
    if at >= 0 {
        text.skip(at + 2)
    } else {
        text
    }
}

/// What stands behind the last `::` of a name, or the whole name.
pub fn bare_identifier(text: &str) -> (out: String)
    ensures
        out@ == bare_identifier_spec(text@),
{
    let c = chars_of(text);
    let sep: Vec<char> = vec![':', ':'];
    proof {
        reveal_strlit("::");
        assert(sep@ =~= "::"@);
    }
    match rfind_chars(&c, &sep) {
        Some(at) => {
            let n = c.len();
            proof {
                assert(sep@.len() == 2);
                assert(c@.skip(at + 2) =~= c@.subrange(at + 2, c@.len() as int));
            }
            let tail = slice_chars(&c, at + 2, n);
            string_of(&tail)
        },
        None => string_of(&c),
    }
}

/// The parameter name that one child of a parameter list gives: the
/// declarator of a parameter declaration, without leading stars.
pub open spec fn c_param_at(t: TreeModel, src: Seq<u8>, c: int) -> Seq<Seq<char>> {
    if t.kind(c) == "parameter_declaration"@ {
        match field_text_spec(t, src, c, "declarator"@) {
            Some(d) => seq![skip_set(d, seq!['*'])],
            None => Seq::empty(),
        }
    } else {
        Seq::empty()
    }
}

/// The parameter names that the first `n` of `kids` give.
pub open spec fn c_params_upto(t: TreeModel, src: Seq<u8>, kids: Seq<int>, n: int) -> Seq<
    Seq<char>,
>
    decreases n,
{
    if n <= 0 {
        Seq::empty()
    } else {
        c_params_upto(t, src, kids, n - 1) + c_param_at(t, src, kids[n - 1])
    }
}

/// The parameter names of the parameter list `p`.
pub open spec fn c_params(t: TreeModel, src: Seq<u8>, p: int) -> Seq<Seq<char>> {
    c_params_upto(t, src, t.children(p), t.children(p).len() as int)
}

/// The parameter names of the parameter list `p`.
pub fn extract_c_params(tree: &SyntaxTree, source: &[u8], p: usize) -> (out: Vec<String>)
    requires
        p < tree.size(),
    ensures
        out.deep_view() == c_params(tree@, source@, p as int),
{
    let kids = tree.children_of(p);
    let star: Vec<char> = vec!['*'];
    proof {
        assert(star@ =~= seq!['*']);
    }
    let mut out: Vec<String> = Vec::new();
    let mut k: usize = 0;
    proof {
        assert(out.deep_view() =~= Seq::<Seq<char>>::empty());
    }
    while k < kids.len()
        invariant
            k <= kids.len(),
            star@ == seq!['*'],
            ints(kids@) == tree.children(p as int),
            forall|j: int| 0 <= j < kids.len() ==> #[trigger] kids@[j] < tree.size(),
            out.deep_view() == c_params_upto(tree@, source@, ints(kids@), k as int),
        decreases kids.len() - k,
    {
        let c = kids[k];
        let ghost before = out.deep_view();
        proof {
            assert(ints(kids@)[k as int] == c as int);
        }
        if tree.kind_is(c, "parameter_declaration") {
            match field_text(tree, source, c, "declarator") {
                Some(d) => {
                    let name = trim_start_set(&chars_of(d.as_str()), &star);
                    out.push(string_of(&name));
                    proof {
                        assert(out.deep_view() =~= before + seq![name@]);
                    }
                },
                None => {},
            }
        }
        proof {
            assert(out.deep_view() =~= before + c_param_at(tree@, source@, c as int));
        }
        k += 1;
    }
    out
}

/// The text of the declarator of the function that node `i` defines:
/// that of the first function declarator below `i`.
pub open spec fn c_declared_name(t: TreeModel, src: Seq<u8>, i: int) -> Option<Seq<char>> {
    match t.descendant_of_kind(i, "function_declarator"@) {
        Some(d) => field_text_spec(t, src, d, "declarator"@),
        None => None,
    }
}

/// The text of the declarator of the function that node `i` defines.
pub fn declared_name(tree: &SyntaxTree, source: &[u8], i: usize) -> (r: Option<String>)
    requires
        i < tree.size(),
    ensures
        r.deep_view() == c_declared_name(tree@, source@, i as int),
{
    match tree.find_descendant_of_type(i, "function_declarator") {
        Some(d) => field_text(tree, source, d, "declarator"),
        None => None,
    }
}

/// The parameter names of the function that node `i` defines.
pub open spec fn c_params_of(t: TreeModel, src: Seq<u8>, i: int) -> Seq<Seq<char>> {
    match t.descendant_of_kind(i, "function_declarator"@) {
        Some(d) => match t.child_by_field(d, "parameters"@) {
            Some(p) => c_params(t, src, p),
            None => Seq::empty(),
        },
        None => Seq::empty(),
    }
}

/// The function that node `i` defines: a function definition whose
/// declarator has a name. The name keeps its qualifier.
pub open spec fn c_function_at(t: TreeModel, src: Seq<u8>, i: int) -> Seq<FunctionFact> {
    if t.kind(i) == "function_definition"@ {
        match c_declared_name(t, src, i) {
            Some(name) => seq![
                FunctionFact {
                    name,
                    start_line: t.nodes()[i].start_line,
                    end_line: t.nodes()[i].end_line,
                    params: c_params_of(t, src, i),
                    is_exported: !c_is_static(t, src, i),
                },
            ],
            None => Seq::empty(),
        }
    } else {
        Seq::empty()
    }
}

/// Appends the function that node `i` defines.
pub fn push_c_function(tree: &SyntaxTree, source: &[u8], i: usize, out: &mut Vec<FunctionInfo>)
    requires
        i < tree.size(),
    ensures
        final(out).deep_view() == old(out).deep_view() + c_function_at(tree@, source@, i as int),
{
    let ghost base = out.deep_view();
    if tree.kind_is(i, "function_definition") {
        match tree.find_descendant_of_type(i, "function_declarator") {
            Some(d) => {
                match field_text(tree, source, d, "declarator") {
                    Some(name) => {
                        let is_static = has_storage_class_static(tree, source, i);
                        let params = match tree.child_by_field_name(d, "parameters") {
                            Some(p) => extract_c_params(tree, source, p),
                            None => Vec::new(),
                        };
                        proof {
                            assert(params.deep_view() =~= c_params_of(tree@, source@, i as int));
                        }
                        let node = tree.node(i);
                        let info = FunctionInfo {
                            name,
                            start_line: node.start_line,
                            end_line: node.end_line,
                            params,
                            is_exported: !is_static,
                        };
                        out.push(info);
                        proof {
                            assert(out.deep_view() =~= base + seq![info.deep_view()]);
                        }
                    },
                    None => {},
                }
            },
            None => {},
        }
    }
    proof {
        assert(out.deep_view() =~= base + c_function_at(tree@, source@, i as int));
    }
}

/// The node that holds the path of the include `i`: its first system
/// string, or else its first string literal.
pub open spec fn c_include_path(t: TreeModel, i: int) -> Option<int> {
    match t.child_of_kind(i, "system_lib_string"@) {
        Some(p) => Some(p),
        None => t.child_of_kind(i, "string_literal"@),
    }
}

/// The characters that enclose an include path.
pub open spec fn include_marks() -> Seq<char> {
    seq!['<', '>', '"']
}

/// The import that node `i` declares: an include with a path. A system
/// include is marked by `is_default`.
pub open spec fn c_include_at(t: TreeModel, src: Seq<u8>, i: int) -> Seq<ImportFact> {
    if t.kind(i) == "preproc_include"@ {
        match c_include_path(t, i) {
            Some(p) => seq![
                ImportFact {
                    source: trim_set(t.text(src, p), include_marks()),
                    names: Seq::empty(),
                    is_default: t.kind(p) == "system_lib_string"@,
                },
            ],
            None => Seq::empty(),
        }
    } else {
        Seq::empty()
    }
}

/// Appends the import that node `i` declares.
pub fn push_c_include(tree: &SyntaxTree, source: &[u8], i: usize, out: &mut Vec<ImportInfo>)
    requires
        i < tree.size(),
    ensures
        final(out).deep_view() == old(out).deep_view() + c_include_at(tree@, source@, i as int),
{
    let ghost base = out.deep_view();
    if tree.kind_is(i, "preproc_include") {
        let path_node = match tree.find_child_of_type(i, "system_lib_string") {
            Some(p) => Some(p),
            None => tree.find_child_of_type(i, "string_literal"),
        };
        match path_node {
            Some(p) => {
                let is_system = tree.kind_is(p, "system_lib_string");
                let marks: Vec<char> = vec!['<', '>', '"'];
                proof {
                    assert(marks@ =~= include_marks());
                }
                let text = tree.node_text(source, p);
                let raw = trim_chars(&chars_of(text.as_str()), &marks);
                let names: Vec<String> = Vec::new();
                proof {
                    assert(names.deep_view() =~= Seq::<Seq<char>>::empty());
                }
                let info = ImportInfo { source: string_of(&raw), names, is_default: is_system };
                out.push(info);
                proof {
                    assert(out.deep_view() =~= base + seq![info.deep_view()]);
                }
            },
            None => {},
        }
    }
    proof {
        assert(out.deep_view() =~= base + c_include_at(tree@, source@, i as int));
    }
}

/// Whether node `i` has a child under the field `body`.
pub open spec fn has_body(t: TreeModel, i: int) -> bool {
    t.child_by_field(i, "body"@).is_some()
}

/// The export that node `i` offers, before duplicates are dropped: a
/// function that is not `static`, under its bare name; a struct, class
/// or enum with a body and a name; the type that a typedef names.
pub open spec fn c_export_candidate(t: TreeModel, src: Seq<u8>, i: int) -> Seq<ExportFact> {
    if t.kind(i) == "function_definition"@ {
        if c_is_static(t, src, i) {
            Seq::empty()
        } else {
            match c_declared_name(t, src, i) {
                Some(name) => seq![
                    ExportFact { name: bare_identifier_spec(name), kind: "function"@ },
                ],
                None => Seq::empty(),
            }
        }
    } else if t.kind(i) == "struct_specifier"@ || t.kind(i) == "class_specifier"@ {
        if has_body(t, i) {
            match field_text_spec(t, src, i, "name"@) {
                Some(name) => seq![ExportFact { name, kind: "struct"@ }],
                None => Seq::empty(),
            }
        } else {
            Seq::empty()
        }
    } else if t.kind(i) == "enum_specifier"@ {
        if has_body(t, i) {
            match field_text_spec(t, src, i, "name"@) {
                Some(name) => seq![ExportFact { name, kind: "enum"@ }],
                None => Seq::empty(),
            }
        } else {
            Seq::empty()
        }
    } else if t.kind(i) == "type_definition"@ {
        match t.descendant_of_kind(i, "type_identifier"@) {
            Some(n) => seq![ExportFact { name: t.text(src, n), kind: "typedef"@ }],
            None => Seq::empty(),
        }
    } else {
        Seq::empty()
    }
}

/// Whether `exports` holds an export named `name`.
pub open spec fn has_export_named(exports: Seq<ExportFact>, name: Seq<char>) -> bool {
    exists|k: int| 0 <= k < exports.len() && (#[trigger] exports[k]).name == name
}

/// `exports` followed by those of `more` whose name is new.
pub open spec fn add_new_exports(exports: Seq<ExportFact>, more: Seq<ExportFact>) -> Seq<
    ExportFact,
>
    decreases more.len(),
{
    if more.len() == 0 {
        exports
    } else {
        let sofar = add_new_exports(exports, more.drop_last());
        if has_export_named(sofar, more.last().name) {
            sofar
        } else {
            sofar.push(more.last())
        }
    }
}

/// The exports that the first `n` nodes give: the candidates in
/// document order, each name once, the first of a name winning.
pub open spec fn c_exports_upto(t: TreeModel, src: Seq<u8>, n: int) -> Seq<ExportFact>
    decreases n,
{
    if n <= 0 {
        Seq::empty()
    } else {
        add_new_exports(c_exports_upto(t, src, n - 1), c_export_candidate(t, src, n - 1))
    }
}

/// The exports of a C or C++ file.
pub open spec fn c_exports(t: TreeModel, src: Seq<u8>) -> Seq<ExportFact> {
    c_exports_upto(t, src, t.size())
}

/// Whether `out` holds an export named `name`.
fn export_named(out: &Vec<ExportInfo>, name: &str) -> (r: bool)
    ensures
        r == has_export_named(out.deep_view(), name@),
{
    let mut k: usize = 0;
    while k < out.len()
        invariant
            k <= out.len(),
            forall|j: int| 0 <= j < k ==> (#[trigger] out.deep_view()[j]).name != name@,
        decreases out.len() - k,
    {
        if str_eq(out[k].name.as_str(), name) {
            proof {
                assert(out.deep_view()[k as int].name == name@);
            }
            return true;
        }
        k += 1;
    }
    false
}

/// Appends an export unless its name is taken.
fn push_if_new(out: &mut Vec<ExportInfo>, name: String, kind: &str)
    ensures
        final(out).deep_view() == add_new_exports(
            old(out).deep_view(),
            seq![ExportFact { name: name@, kind: kind@ }],
        ),
{
    let ghost base = out.deep_view();
    let ghost one = seq![ExportFact { name: name@, kind: kind@ }];
    proof {
        assert(one.drop_last() =~= Seq::<ExportFact>::empty());
        assert(add_new_exports(base, one.drop_last()) == base);
    }
    if !export_named(out, name.as_str()) {
        let info = ExportInfo { name, kind: owned(kind) };
        out.push(info);
        proof {
            assert(out.deep_view() =~= base.push(one.last()));
        }
    }
}

/// Appends the export that node `i` offers, unless its name is taken.
pub fn push_c_export(tree: &SyntaxTree, source: &[u8], i: usize, out: &mut Vec<ExportInfo>)
    requires
        i < tree.size(),
    ensures
        final(out).deep_view() == add_new_exports(
            old(out).deep_view(),
            c_export_candidate(tree@, source@, i as int),
        ),
{
    let ghost base = out.deep_view();
    proof {
        assert(add_new_exports(base, Seq::<ExportFact>::empty()) == base);
    }
    if tree.kind_is(i, "function_definition") {
        if !has_storage_class_static(tree, source, i) {
            match declared_name(tree, source, i) {
                Some(name) => {
                    push_if_new(out, bare_identifier(name.as_str()), "function");
                },
                None => {},
            }
        }
    } else if tree.kind_is(i, "struct_specifier") || tree.kind_is(i, "class_specifier") {
        if tree.child_by_field_name(i, "body").is_some() {
            match field_text(tree, source, i, "name") {
                Some(name) => {
                    push_if_new(out, name, "struct");
                },
                None => {},
            }
        }
    } else if tree.kind_is(i, "enum_specifier") {
        if tree.child_by_field_name(i, "body").is_some() {
            match field_text(tree, source, i, "name") {
                Some(name) => {
                    push_if_new(out, name, "enum");
                },
                None => {},
            }
        }
    } else if tree.kind_is(i, "type_definition") {
        match tree.find_descendant_of_type(i, "type_identifier") {
            Some(n) => {
                push_if_new(out, tree.node_text(source, n), "typedef");
            },
            None => {},
        }
    }
}

/// The exports of a C or C++ file.
pub fn extract_c_exports(tree: &SyntaxTree, source: &[u8]) -> (out: Vec<ExportInfo>)
    ensures
        out.deep_view() == c_exports(tree@, source@),
{
    let mut out: Vec<ExportInfo> = Vec::new();
    let n = tree.len();
    let mut i: usize = 0;
    proof {
        assert(out.deep_view() =~= Seq::<ExportFact>::empty());
    }
    while i < n
        invariant
            i <= n,
            n == tree.size(),
            out.deep_view() == c_exports_upto(tree@, source@, i as int),
        decreases n - i,
    {
        push_c_export(tree, source, i, &mut out);
        i += 1;
    }
    out
}

/// The class that node `i` declares: a struct or class with a body and a
/// name. `methods` says what is recorded as the methods of a class.
pub open spec fn c_class_at(t: TreeModel, src: Seq<u8>, i: int, methods: Seq<Seq<char>>) -> Seq<
    ClassFact,
> {
    if (t.kind(i) == "struct_specifier"@ || t.kind(i) == "class_specifier"@) && has_body(t, i) {
        match field_text_spec(t, src, i, "name"@) {
            Some(name) => seq![
                ClassFact {
                    name,
                    start_line: t.nodes()[i].start_line,
                    end_line: t.nodes()[i].end_line,
                    methods: if t.kind(i) == "class_specifier"@ {
                        methods
                    } else {
                        Seq::empty()
                    },
                    kind: if t.kind(i) == "class_specifier"@ {
                        "class"@
                    } else {
                        "struct"@
                    },
                },
            ],
            None => Seq::empty(),
        }
    } else {
        Seq::empty()
    }
}

/// Appends the class that node `i` declares, without methods.
pub fn push_c_class(tree: &SyntaxTree, source: &[u8], i: usize, out: &mut Vec<ClassInfo>)
    requires
        i < tree.size(),
    ensures
        final(out).deep_view() == old(out).deep_view() + c_class_at(
            tree@,
            source@,
            i as int,
            Seq::empty(),
        ),
{
    let ghost base = out.deep_view();
    let is_class = tree.kind_is(i, "class_specifier");
    if (tree.kind_is(i, "struct_specifier") || is_class) && tree.child_by_field_name(
        i,
        "body",
    ).is_some() {
        match field_text(tree, source, i, "name") {
            Some(name) => {
                let node = tree.node(i);
                let methods: Vec<String> = Vec::new();
                proof {
                    assert(methods.deep_view() =~= Seq::<Seq<char>>::empty());
                }
                let info = ClassInfo {
                    name,
                    start_line: node.start_line,
                    end_line: node.end_line,
                    methods,
                    kind: if is_class {
                        owned("class")
                    } else {
                        owned("struct")
                    },
                };
                out.push(info);
                proof {
                    assert(out.deep_view() =~= base + seq![info.deep_view()]);
                }
            },
            None => {},
        }
    }
    proof {
        assert(out.deep_view() =~= base + c_class_at(tree@, source@, i as int, Seq::empty()));
    }
}

/// The adapter for C.
#[derive(Debug, Clone, Copy)]
pub struct CAdapter;

impl CAdapter {
    /// The adapter.
    pub fn new() -> (a: Self) {
        CAdapter
    }

    /// The grammar that this adapter parses with.
    pub fn grammar(&self) -> (g: Grammar)
        ensures
            g == Grammar::C,
    {
        Grammar::C
    }

    /// Parses a source file. There is always a tree.
    pub fn parse(&self, source: &[u8]) -> (r: Option<SyntaxTree>)
        ensures
            match r {
                Some(t) => t.wf() && t.size() >= 1 && t@ == parsed_model(Grammar::C, source@),
                None => false,
            },
    {
        parse_with(self.grammar(), source)
    }

    /// The functions of a parsed file.
    pub fn extract_functions(&self, tree: &SyntaxTree, source: &[u8]) -> (out: Vec<FunctionInfo>)
        ensures
            out.deep_view() == functions_spec(Language::C, tree@, source@),
    {
        extract_c_functions(tree, source)
    }

    /// The imports of a parsed file.
    pub fn extract_imports(&self, tree: &SyntaxTree, source: &[u8]) -> (out: Vec<ImportInfo>)
        ensures
            out.deep_view() == imports_spec(Language::C, tree@, source@),
    {
        extract_c_includes(tree, source)
    }

    /// The exports of a parsed file.
    pub fn extract_exports(&self, tree: &SyntaxTree, source: &[u8]) -> (out: Vec<ExportInfo>)
        ensures
            out.deep_view() == exports_spec(Language::C, tree@, source@),
    {
        extract_exports(Language::C, tree, source)
    }

    /// The classes of a parsed file.
    pub fn extract_classes(&self, tree: &SyntaxTree, source: &[u8]) -> (out: Vec<ClassInfo>)
        ensures
            out.deep_view() == classes_spec(Language::C, tree@, source@),
    {
        extract_c_classes(tree, source)
    }
}

/// The functions of a C or C++ file.
pub fn extract_c_functions(tree: &SyntaxTree, source: &[u8]) -> (out: Vec<FunctionInfo>)
    ensures
        out.deep_view() == functions_spec(Language::C, tree@, source@),
{
    extract_functions(Language::C, tree, source)
}

/// The includes of a C or C++ file.
pub fn extract_c_includes(tree: &SyntaxTree, source: &[u8]) -> (out: Vec<ImportInfo>)
    ensures
        out.deep_view() == imports_spec(Language::C, tree@, source@),
{
    extract_imports(Language::C, tree, source)
}

/// The structs and classes of a C or C++ file, without methods.
pub fn extract_c_classes(tree: &SyntaxTree, source: &[u8]) -> (out: Vec<ClassInfo>)
    ensures
        out.deep_view() == classes_spec(Language::C, tree@, source@),
{
    extract_classes(Language::C, tree, source)
}

} // verus!
