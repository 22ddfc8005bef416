//! The Python adapter. Only top-level definitions count as functions and
//! classes. `__all__`, where a module assigns it a list, is the whole
//! export list; else every top-level definition is exported.

use crate::languages::collect::{
    classes_spec, exports_spec, extract_classes, extract_exports, extract_functions,
    extract_imports, functions_spec, imports_spec,
};
use crate::languages::facts::{
    field_text, field_text_spec, strip_quotes, strip_quotes_spec, ClassFact, ClassInfo, ExportFact,
    ExportInfo, FunctionFact, FunctionInfo, ImportFact, ImportInfo,
};
use crate::parser::{parse_with, parsed_model, Grammar};
use crate::syntax::{ints, SyntaxTree, TreeModel};
use crate::text::{owned, str_eq};
use crate::traverser::Language;
use vstd::prelude::*;

verus! {

/// The definition of kind `expected` that node `i` is or decorates.
pub open spec fn py_unwrap(t: TreeModel, i: int, expected: Seq<char>) -> Option<int> {
    if t.kind(i) == expected {
        Some(i)
    } else if t.kind(i) == "decorated_definition"@ {
        t.child_of_kind(i, expected)
    } else {
        None
    }
}

/// The definition of kind `expected` that node `i` is or decorates.
pub fn unwrap_decorated(tree: &SyntaxTree, i: usize, expected: &str) -> (r: Option<usize>)
    requires
        i < tree.size(),
    ensures
        match r {
            Some(d) => d < tree.size() && py_unwrap(tree@, i as int, expected@) == Some(d as int),
            None => py_unwrap(tree@, i as int, expected@).is_none(),
        },
{
    if tree.kind_is(i, expected) {
        Some(i)
    } else if tree.kind_is(i, "decorated_definition") {
        tree.find_child_of_type(i, expected)
    } else {
        None
    }
}

/// The text of the first named child of `c`, if it has one.
pub open spec fn first_named_text(t: TreeModel, src: Seq<u8>, c: int) -> Option<Seq<char>> {
    match t.named_child(c) {
        Some(n) => Some(t.text(src, n)),
        None => None,
    }
}

/// The text of the first named child of `c`, if it has one.
pub fn named_child_text(tree: &SyntaxTree, source: &[u8], c: usize) -> (r: Option<String>)
    requires
        c < tree.size(),
    ensures
        r.deep_view() == first_named_text(tree@, source@, c as int),
{
    match tree.first_named_child(c) {
        Some(n) => Some(tree.node_text(source, n)),
        None => None,
    }
}

/// The parameter name that one child of a parameter list gives.
pub open spec fn py_param_at(t: TreeModel, src: Seq<u8>, c: int) -> Seq<Seq<char>> {
    if t.kind(c) == "identifier"@ {
        seq![t.text(src, c)]
    } else if t.kind(c) == "typed_parameter"@ || t.kind(c) == "default_parameter"@ || t.kind(c)
        == "typed_default_parameter"@ {
        match first_named_text(t, src, c) {
            Some(n) => seq![n],
            None => Seq::empty(),
        }
    } else {
        Seq::empty()
    }
}

/// The parameter names that the first `n` of `kids` give.
pub open spec fn py_params_upto(t: TreeModel, src: Seq<u8>, kids: Seq<int>, n: int) -> Seq<
    Seq<char>,
>
    decreases n,
{
    if n <= 0 {
        Seq::empty()
    } else {
        py_params_upto(t, src, kids, n - 1) + py_param_at(t, src, kids[n - 1])
    }
}

/// The parameter names of the parameter list `p`.
pub open spec fn py_params(t: TreeModel, src: Seq<u8>, p: int) -> Seq<Seq<char>> {
    py_params_upto(t, src, t.children(p), t.children(p).len() as int)
}

/// The parameter names of the parameter list `p`.
pub fn extract_python_params(tree: &SyntaxTree, source: &[u8], p: usize) -> (out: Vec<String>)
    requires
        p < tree.size(),
    ensures
        out.deep_view() == py_params(tree@, source@, p as int),
{
    let kids = tree.children_of(p);
    let mut out: Vec<String> = Vec::new();
    let mut k: usize = 0;
    proof {
        assert(out.deep_view() =~= Seq::<Seq<char>>::empty());
    }
    while k < kids.len()
        invariant
            k <= kids.len(),
            ints(kids@) == tree.children(p as int),
            forall|j: int| 0 <= j < kids.len() ==> #[trigger] kids@[j] < tree.size(),
            out.deep_view() == py_params_upto(tree@, source@, ints(kids@), k as int),
        decreases kids.len() - k,
    {
        let c = kids[k];
        let ghost before = out.deep_view();
        proof {
            assert(ints(kids@)[k as int] == c as int);
        }
        if tree.kind_is(c, "identifier") {
            out.push(tree.node_text(source, c));
            proof {
                assert(out.deep_view() =~= before + seq![tree.text(source@, c as int)]);
            }
        } else if tree.kind_is(c, "typed_parameter") || tree.kind_is(c, "default_parameter")
            || tree.kind_is(c, "typed_default_parameter") {
            match named_child_text(tree, source, c) {
                Some(n) => {
                    out.push(n);
                    proof {
                        assert(out.deep_view() =~= before + seq![n@]);
                    }
                },
                None => {},
            }
        }
        proof {
            assert(out.deep_view() =~= before + py_param_at(tree@, source@, c as int));
        }
        k += 1;
    }
    out
}

/// The parameter names of node `f`, from the list under its field
/// `parameters`.
pub open spec fn py_params_of(t: TreeModel, src: Seq<u8>, f: int) -> Seq<Seq<char>> {
    match t.child_by_field(f, "parameters"@) {
        Some(p) => py_params(t, src, p),
        None => Seq::empty(),
    }
}

/// The function that the top-level node `c` gives: a function
/// definition, decorated or not, with a name. It is recorded with the
/// lines of `c`.
pub open spec fn py_function_at(t: TreeModel, src: Seq<u8>, c: int) -> Seq<FunctionFact> {
    match py_unwrap(t, c, "function_definition"@) {
        Some(f) => match field_text_spec(t, src, f, "name"@) {
            Some(name) => seq![
                FunctionFact {
                    name,
                    start_line: t.nodes()[c].start_line,
                    end_line: t.nodes()[c].end_line,
                    params: py_params_of(t, src, f),
                    is_exported: true,
                },
            ],
            None => Seq::empty(),
        },
        None => Seq::empty(),
    }
}

/// The functions that the first `n` of `kids` give.
pub open spec fn py_functions_upto(t: TreeModel, src: Seq<u8>, kids: Seq<int>, n: int) -> Seq<
    FunctionFact,
>
    decreases n,
{
    if n <= 0 {
        Seq::empty()
    } else {
        py_functions_upto(t, src, kids, n - 1) + py_function_at(t, src, kids[n - 1])
    }
}

/// The top-level nodes of a tree: the children of its root.
pub open spec fn top_level(t: TreeModel) -> Seq<int> {
    if t.size() == 0 {
        Seq::empty()
    } else {
        t.children(0)
    }
}

/// The top-level nodes of a tree.
pub fn top_level_nodes(tree: &SyntaxTree) -> (out: Vec<usize>)
    ensures
        ints(out@) == top_level(tree@),
        forall|k: int| 0 <= k < out.len() ==> #[trigger] out@[k] < tree.size(),
{
    if tree.len() == 0 {
        let out: Vec<usize> = Vec::new();
        proof {
            assert(ints(out@) =~= Seq::<int>::empty());
        }
        out
    } else {
        tree.children_of(0)
    }
}

/// The functions of a Python module.
pub open spec fn py_functions(t: TreeModel, src: Seq<u8>) -> Seq<FunctionFact> {
    py_functions_upto(t, src, top_level(t), top_level(t).len() as int)
}

/// The functions of a Python module.
pub fn extract_python_functions(tree: &SyntaxTree, source: &[u8]) -> (out: Vec<FunctionInfo>)
    ensures
        out.deep_view() == py_functions(tree@, source@),
{
    let kids = top_level_nodes(tree);
    let mut out: Vec<FunctionInfo> = Vec::new();
    let mut k: usize = 0;
    proof {
        assert(out.deep_view() =~= Seq::<FunctionFact>::empty());
    }
    while k < kids.len()
        invariant
            k <= kids.len(),
            ints(kids@) == top_level(tree@),
            forall|j: int| 0 <= j < kids.len() ==> #[trigger] kids@[j] < tree.size(),
            out.deep_view() == py_functions_upto(tree@, source@, ints(kids@), k as int),
        decreases kids.len() - k,
    {
        let c = kids[k];
        let ghost before = out.deep_view();
        proof {
            assert(ints(kids@)[k as int] == c as int);
        }
        match unwrap_decorated(tree, c, "function_definition") {
            Some(f) => {
                match field_text(tree, source, f, "name") {
                    Some(name) => {
                        let params = match tree.child_by_field_name(f, "parameters") {
                            Some(p) => extract_python_params(tree, source, p),
                            None => Vec::new(),
                        };
                        proof {
                            assert(params.deep_view() =~= py_params_of(tree@, source@, f as int));
                        }
                        let node = tree.node(c);
                        let info = FunctionInfo {
                            name,
                            start_line: node.start_line,
                            end_line: node.end_line,
                            params,
                            is_exported: true,
                        };
                        out.push(info);
                        proof {
                            assert(out.deep_view() =~= before + seq![info.deep_view()]);
                        }
                    },
                    None => {},
                }
            },
            None => {},
        }
        proof {
            assert(out.deep_view() =~= before + py_function_at(tree@, source@, c as int));
        }
        k += 1;
    }
    out
}

/// The import of a single module, under its own name.
pub open spec fn py_plain_import(name: Seq<char>) -> ImportFact {
    ImportFact { source: name, names: seq![name], is_default: false }
}

/// The import that one child of an `import` statement gives.
pub open spec fn py_import_child(t: TreeModel, src: Seq<u8>, c: int) -> Seq<ImportFact> {
    if t.kind(c) == "dotted_name"@ {
        seq![py_plain_import(t.text(src, c))]
    } else if t.kind(c) == "aliased_import"@ {
        match first_named_text(t, src, c) {
            Some(n) => seq![py_plain_import(n)],
            None => Seq::empty(),
        }
    } else {
        Seq::empty()
    }
}

/// The imports that the first `n` children of an `import` statement
/// give.
pub open spec fn py_import_children(t: TreeModel, src: Seq<u8>, kids: Seq<int>, n: int) -> Seq<
    ImportFact,
>
    decreases n,
{
    if n <= 0 {
        Seq::empty()
    } else {
        py_import_children(t, src, kids, n - 1) + py_import_child(t, src, kids[n - 1])
    }
}

/// The name that one child of a `from` import gives, once the keyword
/// `import` is passed.
pub open spec fn py_from_name(t: TreeModel, src: Seq<u8>, c: int) -> Seq<Seq<char>> {
    if t.kind(c) == "dotted_name"@ || t.kind(c) == "identifier"@ {
        seq![t.text(src, c)]
    } else if t.kind(c) == "aliased_import"@ {
        match first_named_text(t, src, c) {
            Some(n) => seq![n],
            None => Seq::empty(),
        }
    } else if t.kind(c) == "wildcard_import"@ {
        seq!["*"@]
    } else {
        Seq::empty()
    }
}

/// Whether the keyword `import` is among the first `n` of `kids`.
pub open spec fn py_past_import(t: TreeModel, kids: Seq<int>, n: int) -> bool
    decreases n,
{
    if n <= 0 {
        false
    } else {
        py_past_import(t, kids, n - 1) || t.kind(kids[n - 1]) == "import"@
    }
}

/// The names that the first `n` children of a `from` import give: those
/// of the children behind the keyword `import`.
pub open spec fn py_from_names(t: TreeModel, src: Seq<u8>, kids: Seq<int>, n: int) -> Seq<
    Seq<char>,
>
    decreases n,
{
    if n <= 0 {
        Seq::empty()
    } else if t.kind(kids[n - 1]) != "import"@ && py_past_import(t, kids, n - 1) {
        py_from_names(t, src, kids, n - 1) + py_from_name(t, src, kids[n - 1])
    } else {
        py_from_names(t, src, kids, n - 1)
    }
}

/// The imports that node `i` declares: one per module of an `import`
/// statement, or one for a `from` import.
pub open spec fn py_import_at(t: TreeModel, src: Seq<u8>, i: int) -> Seq<ImportFact> {
    if t.kind(i) == "import_statement"@ {
        py_import_children(t, src, t.children(i), t.children(i).len() as int)
    } else if t.kind(i) == "import_from_statement"@ {
        seq![
            ImportFact {
                source: match field_text_spec(t, src, i, "module_name"@) {
                    Some(m) => m,
                    None => Seq::empty(),
                },
                names: py_from_names(t, src, t.children(i), t.children(i).len() as int),
                is_default: false,
            },
        ]
    } else {
        Seq::empty()
    }
}

/// An import of a single module under its own name.
fn plain_import(name: String) -> (r: ImportInfo)
    ensures
        r.deep_view() == py_plain_import(name@),
{
    let mut names: Vec<String> = Vec::new();
    names.push(name.clone());
    proof {
        assert(names.deep_view() =~= seq![name@]);
    }
    ImportInfo { source: name, names, is_default: false }
}

/// Appends the imports that node `i` declares.
pub fn push_python_import(tree: &SyntaxTree, source: &[u8], i: usize, out: &mut Vec<ImportInfo>)
    requires
        i < tree.size(),
    ensures
        final(out).deep_view() == old(out).deep_view() + py_import_at(tree@, source@, i as int),
{
    let ghost base = out.deep_view();
    if tree.kind_is(i, "import_statement") {
        let kids = tree.children_of(i);
        let mut k: usize = 0;
        proof {
            assert(out.deep_view() =~= base + Seq::<ImportFact>::empty());
        }
        while k < kids.len()
            invariant
                k <= kids.len(),
                ints(kids@) == tree.children(i as int),
                forall|j: int| 0 <= j < kids.len() ==> #[trigger] kids@[j] < tree.size(),
                out.deep_view() == base + py_import_children(
                    tree@,
                    source@,
                    ints(kids@),
                    k as int,
                ),
            decreases kids.len() - k,
        {
            let c = kids[k];
            let ghost before = out.deep_view();
            proof {
                assert(ints(kids@)[k as int] == c as int);
            }
            if tree.kind_is(c, "dotted_name") {
                let info = plain_import(tree.node_text(source, c));
                out.push(info);
                proof {
                    assert(out.deep_view() =~= before + seq![info.deep_view()]);
                }
            } else if tree.kind_is(c, "aliased_import") {
                match named_child_text(tree, source, c) {
                    Some(n) => {
                        let info = plain_import(n);
                        out.push(info);
                        proof {
                            assert(out.deep_view() =~= before + seq![info.deep_view()]);
                        }
                    },
                    None => {},
                }
            }
            proof {
                let step = py_import_child(tree@, source@, c as int);
                assert(out.deep_view() =~= before + step);
                assert(base + py_import_children(tree@, source@, ints(kids@), k + 1) =~= (base
                    + py_import_children(tree@, source@, ints(kids@), k as int)) + step);
            }
            k += 1;
        }
    } else if tree.kind_is(i, "import_from_statement") {
        let module = match field_text(tree, source, i, "module_name") {
            Some(m) => m,
            None => String::new(),
        };
        let kids = tree.children_of(i);
        let mut names: Vec<String> = Vec::new();
        let mut past = false;
        let mut k: usize = 0;
        proof {
            assert(names.deep_view() =~= Seq::<Seq<char>>::empty());
        }
        while k < kids.len()
            invariant
                k <= kids.len(),
                ints(kids@) == tree.children(i as int),
                forall|j: int| 0 <= j < kids.len() ==> #[trigger] kids@[j] < tree.size(),
                past == py_past_import(tree@, ints(kids@), k as int),
                names.deep_view() == py_from_names(tree@, source@, ints(kids@), k as int),
            decreases kids.len() - k,
        {
            let c = kids[k];
            let ghost before = names.deep_view();
            proof {
                assert(ints(kids@)[k as int] == c as int);
            }
            if tree.kind_is(c, "import") {
                past = true;
            } else if past {
                if tree.kind_is(c, "dotted_name") || tree.kind_is(c, "identifier") {
                    names.push(tree.node_text(source, c));
                    proof {
                        assert(names.deep_view() =~= before + seq![tree.text(source@, c as int)]);
                    }
                } else if tree.kind_is(c, "aliased_import") {
                    match named_child_text(tree, source, c) {
                        Some(n) => {
                            names.push(n);
                            proof {
                                assert(names.deep_view() =~= before + seq![n@]);
                            }
                        },
                        None => {},
                    }
                } else if tree.kind_is(c, "wildcard_import") {
                    names.push(owned("*"));
                    proof {
                        assert(names.deep_view() =~= before + seq!["*"@]);
                    }
                }
                proof {
                    assert(names.deep_view() =~= before + py_from_name(tree@, source@, c as int));
                }
            }
            k += 1;
        }
        let info = ImportInfo { source: module, names, is_default: false };
        out.push(info);
        proof {
            assert(out.deep_view() =~= base + seq![info.deep_view()]);
        }
    }
    proof {
        assert(out.deep_view() =~= base + py_import_at(tree@, source@, i as int));
    }
}

/// The string that one child of a list gives: a string literal without
/// its quotes.
pub open spec fn py_list_string_at(t: TreeModel, src: Seq<u8>, c: int) -> Seq<Seq<char>> {
    if t.kind(c) == "string"@ {
        seq![strip_quotes_spec(t.text(src, c))]
    } else {
        Seq::empty()
    }
}

/// The strings that the first `n` of `kids` give.
pub open spec fn py_list_strings_upto(t: TreeModel, src: Seq<u8>, kids: Seq<int>, n: int) -> Seq<
    Seq<char>,
>
    decreases n,
{
    if n <= 0 {
        Seq::empty()
    } else {
        py_list_strings_upto(t, src, kids, n - 1) + py_list_string_at(t, src, kids[n - 1])
    }
}

/// The string literals of node `r`, where `r` is a list.
pub open spec fn py_list_strings(t: TreeModel, src: Seq<u8>, r: int) -> Option<Seq<Seq<char>>> {
    if t.kind(r) == "list"@ {
        Some(py_list_strings_upto(t, src, t.children(r), t.children(r).len() as int))
    } else {
        None
    }
}

/// The string literals of node `r`, where `r` is a list.
pub fn extract_list_strings(tree: &SyntaxTree, source: &[u8], r: usize) -> (out: Option<
    Vec<String>,
>)
    requires
        r < tree.size(),
    ensures
        out.deep_view() == py_list_strings(tree@, source@, r as int),
{
    if !tree.kind_is(r, "list") {
        return None;
    }
    let kids = tree.children_of(r);
    let mut strings: Vec<String> = Vec::new();
    let mut k: usize = 0;
    proof {
        assert(strings.deep_view() =~= Seq::<Seq<char>>::empty());
    }
    while k < kids.len()
        invariant
            k <= kids.len(),
            ints(kids@) == tree.children(r as int),
            forall|j: int| 0 <= j < kids.len() ==> #[trigger] kids@[j] < tree.size(),
            strings.deep_view() == py_list_strings_upto(tree@, source@, ints(kids@), k as int),
        decreases kids.len() - k,
    {
        let c = kids[k];
        let ghost before = strings.deep_view();
        proof {
            assert(ints(kids@)[k as int] == c as int);
        }
        if tree.kind_is(c, "string") {
            let text = tree.node_text(source, c);
            strings.push(strip_quotes(text.as_str()));
            proof {
                assert(strings.deep_view() =~= before + py_list_string_at(
                    tree@,
                    source@,
                    c as int,
                ));
            }
        }
        k += 1;
    }
    Some(strings)
}

/// The right-hand side of the assignment `a`, where `a` assigns to
/// `__all__`.
pub open spec fn py_all_value(t: TreeModel, src: Seq<u8>, a: int) -> Option<int> {
    match field_text_spec(t, src, a, "left"@) {
        Some(left) => if left == "__all__"@ {
            t.child_by_field(a, "right"@)
        } else {
            None
        },
        None => None,
    }
}

/// The right-hand side of the assignment `a`, where `a` assigns to
/// `__all__`.
fn all_value(tree: &SyntaxTree, source: &[u8], a: usize) -> (r: Option<usize>)
    requires
        a < tree.size(),
    ensures
        match r {
            Some(v) => v < tree.size() && py_all_value(tree@, source@, a as int) == Some(v as int),
            None => py_all_value(tree@, source@, a as int).is_none(),
        },
{
    match field_text(tree, source, a, "left") {
        Some(left) => {
            if str_eq(left.as_str(), "__all__") {
                tree.child_by_field_name(a, "right")
            } else {
                None
            }
        },
        None => None,
    }
}

/// The value that the top-level node `c` assigns to `__all__`, where it
/// does so: as an expression statement whose first named child is such an
/// assignment, or as such an assignment itself.
pub open spec fn py_all_assigned_at(t: TreeModel, src: Seq<u8>, c: int) -> Option<int> {
    if t.kind(c) == "expression_statement"@ {
        match t.named_child(c) {
            Some(e) => if t.kind(e) == "assignment"@ {
                py_all_value(t, src, e)
            } else {
                None
            },
            None => None,
        }
    } else if t.kind(c) == "assignment"@ {
        py_all_value(t, src, c)
    } else {
        None
    }
}

/// The value of the first assignment to `__all__` among `kids`.
pub open spec fn py_first_all(t: TreeModel, src: Seq<u8>, kids: Seq<int>) -> Option<int>
    decreases kids.len(),
{
    if kids.len() == 0 {
        None
    } else {
        match py_all_assigned_at(t, src, kids[0]) {
            Some(v) => Some(v),
            None => py_first_all(t, src, kids.drop_first()),
        }
    }
}

/// The export list that `__all__` declares: the string literals of the
/// first top-level assignment to it; nothing where there is no such
/// assignment or its value is no list.
pub open spec fn py_dunder_all(t: TreeModel, src: Seq<u8>) -> Option<Seq<Seq<char>>> {
    match py_first_all(t, src, top_level(t)) {
        Some(v) => py_list_strings(t, src, v),
        None => None,
    }
}

/// The export list that `__all__` declares.
pub fn extract_dunder_all(tree: &SyntaxTree, source: &[u8]) -> (out: Option<Vec<String>>)
    ensures
        out.deep_view() == py_dunder_all(tree@, source@),
{
    let kids = top_level_nodes(tree);
    let mut k: usize = 0;
    proof {
        assert(ints(kids@).skip(0) =~= ints(kids@));
    }
    while k < kids.len()
        invariant
            k <= kids.len(),
            ints(kids@) == top_level(tree@),
            forall|j: int| 0 <= j < kids.len() ==> #[trigger] kids@[j] < tree.size(),
            py_first_all(tree@, source@, top_level(tree@)) == py_first_all(
                tree@,
                source@,
                ints(kids@).skip(k as int),
            ),
        decreases kids.len() - k,
    {
        let c = kids[k];
        proof {
            assert(ints(kids@).skip(k as int)[0] == c as int);
            assert(ints(kids@).skip(k as int).drop_first() =~= ints(kids@).skip(k + 1));
        }
        let value: Option<usize> = if tree.kind_is(c, "expression_statement") {
            match tree.first_named_child(c) {
                Some(e) => {
                    if tree.kind_is(e, "assignment") {
                        all_value(tree, source, e)
                    } else {
                        None
                    }
                },
                None => None,
            }
        } else if tree.kind_is(c, "assignment") {
            all_value(tree, source, c)
        } else {
            None
        };
        match value {
            Some(v) => {
                return extract_list_strings(tree, source, v);
            },
            None => {},
        }
        k += 1;
    }
    None
}

/// The export that the top-level node `c` gives by convention: its
/// function, or else its class.
pub open spec fn py_default_export_at(t: TreeModel, src: Seq<u8>, c: int) -> Seq<ExportFact> {
    match py_unwrap(t, c, "function_definition"@) {
        Some(f) => match field_text_spec(t, src, f, "name"@) {
            Some(name) => seq![ExportFact { name, kind: "function"@ }],
            None => Seq::empty(),
        },
        None => match py_unwrap(t, c, "class_definition"@) {
            Some(cls) => match field_text_spec(t, src, cls, "name"@) {
                Some(name) => seq![ExportFact { name, kind: "class"@ }],
                None => Seq::empty(),
            },
            None => Seq::empty(),
        },
    }
}

/// The exports that the first `n` of `kids` give by convention.
pub open spec fn py_default_exports_upto(
    t: TreeModel,
    src: Seq<u8>,
    kids: Seq<int>,
    n: int,
) -> Seq<ExportFact>
    decreases n,
{
    if n <= 0 {
        Seq::empty()
    } else {
        py_default_exports_upto(t, src, kids, n - 1) + py_default_export_at(t, src, kids[n - 1])
    }
}

/// The exports that a list of names declares, each of kind `variable`.
pub open spec fn py_named_exports(names: Seq<Seq<char>>) -> Seq<ExportFact> {
    Seq::new(names.len(), |i: int| ExportFact { name: names[i], kind: "variable"@ })
}

/// The exports of a Python module.
pub open spec fn py_exports(t: TreeModel, src: Seq<u8>) -> Seq<ExportFact> {
    match py_dunder_all(t, src) {
        Some(names) => py_named_exports(names),
        None => py_default_exports_upto(t, src, top_level(t), top_level(t).len() as int),
    }
}

/// A module that assigns `__all__` exports the names of that list and
/// nothing else; with an empty list it exports nothing.
pub proof fn law_dunder_all_decides(t: TreeModel, src: Seq<u8>, names: Seq<Seq<char>>)
    requires
        py_dunder_all(t, src) == Some(names),
    ensures
        py_exports(t, src).len() == names.len(),
        forall|k: int|
            0 <= k < names.len() ==> (#[trigger] py_exports(t, src)[k]).name == names[k]
                && py_exports(t, src)[k].kind == "variable"@,
        names.len() == 0 ==> py_exports(t, src) == Seq::<ExportFact>::empty(),
{
    if names.len() == 0 {
        assert(py_exports(t, src) =~= Seq::<ExportFact>::empty());
    }
}

/// The exports of a Python module.
pub fn extract_python_exports(tree: &SyntaxTree, source: &[u8]) -> (out: Vec<ExportInfo>)
    ensures
        out.deep_view() == py_exports(tree@, source@),
{
    let mut out: Vec<ExportInfo> = Vec::new();
    match extract_dunder_all(tree, source) {
        Some(names) => {
            let mut k: usize = 0;
            proof {
                assert(out.deep_view() =~= py_named_exports(names.deep_view()).take(0));
            }
            while k < names.len()
                invariant
                    k <= names.len(),
                    out.deep_view() == py_named_exports(names.deep_view()).take(k as int),
                decreases names.len() - k,
            {
                let ghost before = out.deep_view();
                let info = ExportInfo { name: names[k].clone(), kind: owned("variable") };
                out.push(info);
                proof {
                    assert(out.deep_view() =~= before.push(info.deep_view()));
                    assert(out.deep_view() =~= py_named_exports(names.deep_view()).take(k + 1));
                }
                k += 1;
            }
            proof {
                assert(py_named_exports(names.deep_view()).take(names@.len() as int)
                    =~= py_named_exports(names.deep_view()));
            }
            out
        },
        None => {
            let kids = top_level_nodes(tree);
            let mut k: usize = 0;
            proof {
                assert(out.deep_view() =~= Seq::<ExportFact>::empty());
            }
            while k < kids.len()
                invariant
                    k <= kids.len(),
                    ints(kids@) == top_level(tree@),
                    forall|j: int| 0 <= j < kids.len() ==> #[trigger] kids@[j] < tree.size(),
                    out.deep_view() == py_default_exports_upto(
                        tree@,
                        source@,
                        ints(kids@),
                        k as int,
                    ),
                decreases kids.len() - k,
            {
                let c = kids[k];
                let ghost before = out.deep_view();
                proof {
                    assert(ints(kids@)[k as int] == c as int);
                }
                match unwrap_decorated(tree, c, "function_definition") {
                    Some(f) => {
                        match field_text(tree, source, f, "name") {
                            Some(name) => {
                                let info = ExportInfo { name, kind: owned("function") };
                                out.push(info);
                                proof {
                                    assert(out.deep_view() =~= before + seq![info.deep_view()]);
                                }
                            },
                            None => {},
                        }
                    },
                    None => {
                        match unwrap_decorated(tree, c, "class_definition") {
                            Some(cls) => {
                                match field_text(tree, source, cls, "name") {
                                    Some(name) => {
                                        let info = ExportInfo { name, kind: owned("class") };
                                        out.push(info);
                                        proof {
                                            assert(out.deep_view() =~= before + seq![
                                                info.deep_view(),
                                            ]);
                                        }
                                    },
                                    None => {},
                                }
                            },
                            None => {},
                        }
                    },
                }
                proof {
                    assert(out.deep_view() =~= before + py_default_export_at(
                        tree@,
                        source@,
                        c as int,
                    ));
                }
                k += 1;
            }
            out
        },
    }
}

/// The method name that one child of a class body gives.
pub open spec fn py_method_at(t: TreeModel, src: Seq<u8>, c: int) -> Seq<Seq<char>> {
    match py_unwrap(t, c, "function_definition"@) {
        Some(f) => match field_text_spec(t, src, f, "name"@) {
            Some(n) => seq![n],
            None => Seq::empty(),
        },
        None => Seq::empty(),
    }
}

/// The method names that the first `n` of `kids` give.
pub open spec fn py_methods_upto(t: TreeModel, src: Seq<u8>, kids: Seq<int>, n: int) -> Seq<
    Seq<char>,
>
    decreases n,
{
    if n <= 0 {
        Seq::empty()
    } else {
        py_methods_upto(t, src, kids, n - 1) + py_method_at(t, src, kids[n - 1])
    }
}

/// The names of the methods defined directly in the body of class
/// `cls`.
pub open spec fn py_methods(t: TreeModel, src: Seq<u8>, cls: int) -> Seq<Seq<char>> {
    match t.child_by_field(cls, "body"@) {
        Some(b) => py_methods_upto(t, src, t.children(b), t.children(b).len() as int),
        None => Seq::empty(),
    }
}

/// The names of the methods defined directly in the body of class
/// `cls`.
pub fn extract_class_methods(tree: &SyntaxTree, source: &[u8], cls: usize) -> (out: Vec<String>)
    requires
        cls < tree.size(),
    ensures
        out.deep_view() == py_methods(tree@, source@, cls as int),
{
    let mut out: Vec<String> = Vec::new();
    proof {
        assert(out.deep_view() =~= Seq::<Seq<char>>::empty());
    }
    match tree.child_by_field_name(cls, "body") {
        Some(b) => {
            let kids = tree.children_of(b);
            let mut k: usize = 0;
            while k < kids.len()
                invariant
                    k <= kids.len(),
                    ints(kids@) == tree.children(b as int),
                    forall|j: int| 0 <= j < kids.len() ==> #[trigger] kids@[j] < tree.size(),
                    out.deep_view() == py_methods_upto(tree@, source@, ints(kids@), k as int),
                decreases kids.len() - k,
            {
                let c = kids[k];
                let ghost before = out.deep_view();
                proof {
                    assert(ints(kids@)[k as int] == c as int);
                }
                match unwrap_decorated(tree, c, "function_definition") {
                    Some(f) => {
                        match field_text(tree, source, f, "name") {
                            Some(n) => {
                                out.push(n);
                                proof {
                                    assert(out.deep_view() =~= before + seq![n@]);
                                }
                            },
                            None => {},
                        }
                    },
                    None => {},
                }
                proof {
                    assert(out.deep_view() =~= before + py_method_at(tree@, source@, c as int));
                }
                k += 1;
            }
            out
        },
        None => out,
    }
}

/// The class that the top-level node `c` gives: a class definition,
/// decorated or not, with a name. It is recorded with the lines of `c`.
pub open spec fn py_class_at(t: TreeModel, src: Seq<u8>, c: int) -> Seq<ClassFact> {
    match py_unwrap(t, c, "class_definition"@) {
        Some(cls) => match field_text_spec(t, src, cls, "name"@) {
            Some(name) => seq![
                ClassFact {
                    name,
                    start_line: t.nodes()[c].start_line,
                    end_line: t.nodes()[c].end_line,
                    methods: py_methods(t, src, cls),
                    kind: "class"@,
                },
            ],
            None => Seq::empty(),
        },
        None => Seq::empty(),
    }
}

/// The classes that the first `n` of `kids` give.
pub open spec fn py_classes_upto(t: TreeModel, src: Seq<u8>, kids: Seq<int>, n: int) -> Seq<
    ClassFact,
>
    decreases n,
{
    if n <= 0 {
        Seq::empty()
    } else {
        py_classes_upto(t, src, kids, n - 1) + py_class_at(t, src, kids[n - 1])
    }
}

/// The classes of a Python module.
pub open spec fn py_classes(t: TreeModel, src: Seq<u8>) -> Seq<ClassFact> {
    py_classes_upto(t, src, top_level(t), top_level(t).len() as int)
}

/// The classes of a Python module.
pub fn extract_python_classes(tree: &SyntaxTree, source: &[u8]) -> (out: Vec<ClassInfo>)
    ensures
        out.deep_view() == py_classes(tree@, source@),
{
    let kids = top_level_nodes(tree);
    let mut out: Vec<ClassInfo> = Vec::new();
    let mut k: usize = 0;
    proof {
        assert(out.deep_view() =~= Seq::<ClassFact>::empty());
    }
    while k < kids.len()
        invariant
            k <= kids.len(),
            ints(kids@) == top_level(tree@),
            forall|j: int| 0 <= j < kids.len() ==> #[trigger] kids@[j] < tree.size(),
            out.deep_view() == py_classes_upto(tree@, source@, ints(kids@), k as int),
        decreases kids.len() - k,
    {
        let c = kids[k];
        let ghost before = out.deep_view();
        proof {
            assert(ints(kids@)[k as int] == c as int);
        }
        match unwrap_decorated(tree, c, "class_definition") {
            Some(cls) => {
                match field_text(tree, source, cls, "name") {
                    Some(name) => {
                        let methods = extract_class_methods(tree, source, cls);
                        let node = tree.node(c);
                        let info = ClassInfo {
                            name,
                            start_line: node.start_line,
                            end_line: node.end_line,
                            methods,
                            kind: owned("class"),
                        };
                        out.push(info);
                        proof {
                            assert(out.deep_view() =~= before + seq![info.deep_view()]);
                        }
                    },
                    None => {},
                }
            },
            None => {},
        }
        proof {
            assert(out.deep_view() =~= before + py_class_at(tree@, source@, c as int));
        }
        k += 1;
    }
    out
}

/// The adapter for Python.
#[derive(Debug, Clone, Copy)]
pub struct PythonAdapter;

impl PythonAdapter {
    /// The adapter.
    pub fn new() -> (a: Self) {
        PythonAdapter
    }

    /// The grammar that this adapter parses with.
    pub fn grammar(&self) -> (g: Grammar)
        ensures
            g == Grammar::Python,
    {
        Grammar::Python
    }

    /// Parses a source file. There is always a tree.
    pub fn parse(&self, source: &[u8]) -> (r: Option<SyntaxTree>)
        ensures
            match r {
                Some(t) => t.wf() && t.size() >= 1 && t@ == parsed_model(Grammar::Python, source@),
                None => false,
            },
    {
        parse_with(self.grammar(), source)
    }

    /// The functions of a parsed file.
    pub fn extract_functions(&self, tree: &SyntaxTree, source: &[u8]) -> (out: Vec<FunctionInfo>)
        ensures
            out.deep_view() == functions_spec(Language::Python, tree@, source@),
    {
        extract_functions(Language::Python, tree, source)
    }

    /// The imports of a parsed file.
    pub fn extract_imports(&self, tree: &SyntaxTree, source: &[u8]) -> (out: Vec<ImportInfo>)
        ensures
            out.deep_view() == imports_spec(Language::Python, tree@, source@),
    {
        extract_imports(Language::Python, tree, source)
    }

    /// The exports of a parsed file.
    pub fn extract_exports(&self, tree: &SyntaxTree, source: &[u8]) -> (out: Vec<ExportInfo>)
        ensures
            out.deep_view() == exports_spec(Language::Python, tree@, source@),
    {
        extract_exports(Language::Python, tree, source)
    }

    /// The classes of a parsed file.
    pub fn extract_classes(&self, tree: &SyntaxTree, source: &[u8]) -> (out: Vec<ClassInfo>)
        ensures
            out.deep_view() == classes_spec(Language::Python, tree@, source@),
    {
        extract_classes(Language::Python, tree, source)
    }
}

} // verus!
