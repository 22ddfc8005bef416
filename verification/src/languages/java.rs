//! The Java adapter. A declaration is exported when its modifiers hold
//! `public`; a method is named `Class.method`.

use crate::languages::collect::{
    classes_spec, exports_spec, extract_classes, extract_exports, extract_functions,
    extract_imports, functions_spec, imports_spec,
};
use crate::languages::facts::{
    field_text, field_text_spec, ClassFact, ClassInfo, ExportFact, ExportInfo, FunctionFact,
    FunctionInfo, ImportFact, ImportInfo,
};
use crate::parser::{parse_with, parsed_model, Grammar};
use crate::syntax::{ints, SyntaxTree, TreeModel};
use crate::text::{
    chars_of, drop_set, last_index_of, lemma_last_index_of, owned, push_str, rfind_char,
    skip_prefix, slice_chars, str_eq, string_of, trim, trim_end_set, trim_start_str, trim_ws,
};
use crate::traverser::Language;
use vstd::prelude::*;

verus! {

/// Whether a node kind is the body of a class, interface or enum.
pub open spec fn is_java_body(kind: Seq<char>) -> bool {
    kind == "class_body"@ || kind == "interface_body"@ || kind == "enum_body"@
}

/// The name of the declaration whose body is `b`, where `b` is a body
/// and its parent has a name.
pub open spec fn java_body_owner(t: TreeModel, src: Seq<u8>, b: int) -> Option<Seq<char>> {
    if is_java_body(t.kind(b)) {
        match t.nodes()[b].parent {
            Some(d) => field_text_spec(t, src, d as int, "name"@),
            None => None,
        }
    } else {
        None
    }
}

/// The name of the nearest named declaration whose body encloses node
/// `i`, looking at most `fuel` nodes up.
pub open spec fn java_enclosing(t: TreeModel, src: Seq<u8>, i: int, fuel: nat) -> Option<
    Seq<char>,
>
    decreases fuel,
{
    if fuel == 0 || i < 0 || i >= t.nodes().len() {
        None
    } else {
        match t.nodes()[i].parent {
            Some(p) => match java_body_owner(t, src, p as int) {
                Some(name) => Some(name),
                None => java_enclosing(t, src, p as int, (fuel - 1) as nat),
            },
            None => None,
        }
    }
}

/// The name of the class, interface or enum that encloses node `i`.
pub fn find_enclosing_class_name(tree: &SyntaxTree, source: &[u8], i: usize) -> (r: Option<String>)
    requires
        i < tree.size(),
    ensures
        r.deep_view() == java_enclosing(tree@, source@, i as int, tree.nodes().len()),
{
    let mut cur: usize = i;
    let mut fuel: usize = tree.len();
    while fuel > 0
        invariant
            cur < tree.size(),
            java_enclosing(tree@, source@, i as int, tree.nodes().len()) == java_enclosing(
                tree@,
                source@,
                cur as int,
                fuel as nat,
            ),
        decreases fuel,
    {
        match tree.parent(cur) {
            Some(p) => {
                if tree.kind_is(p, "class_body") || tree.kind_is(p, "interface_body")
                    || tree.kind_is(p, "enum_body") {
                    match tree.parent(p) {
                        Some(d) => {
                            match field_text(tree, source, d, "name") {
                                Some(name) => {
                                    return Some(name);
                                },
                                None => {},
                            }
                        },
                        None => {},
                    }
                }
                cur = p;
            },
            None => {
                return None;
            },
        }
        fuel -= 1;
    }
    None
}

/// Whether one of the first `n` of `kids` has the text `word`.
pub open spec fn java_any_text(t: TreeModel, src: Seq<u8>, kids: Seq<int>, word: Seq<char>, n: int) -> bool
    decreases n,
{
    if n <= 0 {
        false
    } else {
        java_any_text(t, src, kids, word, n - 1) || t.text(src, kids[n - 1]) == word
    }
}

/// Whether one of the first `n` of `kids` is a modifier list that holds
/// `word`.
pub open spec fn java_any_modifier(
    t: TreeModel,
    src: Seq<u8>,
    kids: Seq<int>,
    word: Seq<char>,
    n: int,
) -> bool
    decreases n,
{
    if n <= 0 {
        false
    } else {
        java_any_modifier(t, src, kids, word, n - 1) || (t.kind(kids[n - 1]) == "modifiers"@
            && java_any_text(
            t,
            src,
            t.children(kids[n - 1]),
            word,
            t.children(kids[n - 1]).len() as int,
        ))
    }
}

/// Whether node `i` carries the modifier `word`.
pub open spec fn java_has_modifier(t: TreeModel, src: Seq<u8>, i: int, word: Seq<char>) -> bool {
    java_any_modifier(t, src, t.children(i), word, t.children(i).len() as int)
}

/// Whether one of the children of `m` has the text `word`.
fn holds_text(tree: &SyntaxTree, source: &[u8], m: usize, word: &str) -> (r: bool)
    requires
        m < tree.size(),
    ensures
        r == java_any_text(
            tree@,
            source@,
            tree.children(m as int),
            word@,
            tree.children(m as int).len() as int,
        ),
{
    let kids = tree.children_of(m);
    let mut k: usize = 0;
    while k < kids.len()
        invariant
            k <= kids.len(),
            ints(kids@) == tree.children(m as int),
            forall|j: int| 0 <= j < kids.len() ==> #[trigger] kids@[j] < tree.size(),
            !java_any_text(tree@, source@, ints(kids@), word@, k as int),
        decreases kids.len() - k,
    {
        proof {
            assert(ints(kids@)[k as int] == kids@[k as int] as int);
        }
        let text = tree.node_text(source, kids[k]);
        if str_eq(text.as_str(), word) {
            proof {
                lemma_any_text_grows(
                    tree@,
                    source@,
                    ints(kids@),
                    word@,
                    k + 1,
                    kids@.len() as int,
                );
            }
            return true;
        }
        k += 1;
    }
    false
}

/// What holds of a prefix holds of every longer one.
proof fn lemma_any_text_grows(
    t: TreeModel,
    src: Seq<u8>,
    kids: Seq<int>,
    word: Seq<char>,
    a: int,
    b: int,
)
    requires
        a <= b,
        java_any_text(t, src, kids, word, a),
    ensures
        java_any_text(t, src, kids, word, b),
    decreases b - a,
{
    if a < b {
        lemma_any_text_grows(t, src, kids, word, a, b - 1);
    }
}

/// What holds of a prefix holds of every longer one.
proof fn lemma_any_modifier_grows(
    t: TreeModel,
    src: Seq<u8>,
    kids: Seq<int>,
    word: Seq<char>,
    a: int,
    b: int,
)
    requires
        a <= b,
        java_any_modifier(t, src, kids, word, a),
    ensures
        java_any_modifier(t, src, kids, word, b),
    decreases b - a,
{
    if a < b {
        lemma_any_modifier_grows(t, src, kids, word, a, b - 1);
    }
}

/// Whether node `i` carries the modifier `modifier`.
pub fn has_modifier(tree: &SyntaxTree, source: &[u8], i: usize, modifier: &str) -> (r: bool)
    requires
        i < tree.size(),
    ensures
        r == java_has_modifier(tree@, source@, i as int, modifier@),
{
    let kids = tree.children_of(i);
    let mut k: usize = 0;
    while k < kids.len()
        invariant
            k <= kids.len(),
            ints(kids@) == tree.children(i as int),
            forall|j: int| 0 <= j < kids.len() ==> #[trigger] kids@[j] < tree.size(),
            !java_any_modifier(tree@, source@, ints(kids@), modifier@, k as int),
        decreases kids.len() - k,
    {
        let c = kids[k];
        proof {
            assert(ints(kids@)[k as int] == c as int);
        }
        if tree.kind_is(c, "modifiers") && holds_text(tree, source, c, modifier) {
            proof {
                lemma_any_modifier_grows(
                    tree@,
                    source@,
                    ints(kids@),
                    modifier@,
                    k + 1,
                    kids@.len() as int,
                );
            }
            return true;
        }
        k += 1;
    }
    false
}

/// The parameter name that one child of a parameter list gives.
pub open spec fn java_param_at(t: TreeModel, src: Seq<u8>, c: int) -> Seq<Seq<char>> {
    if t.kind(c) == "formal_parameter"@ || t.kind(c) == "spread_parameter"@ {
        match field_text_spec(t, src, c, "name"@) {
            Some(n) => seq![n],
            None => Seq::empty(),
        }
    } else {
        Seq::empty()
    }
}

/// The parameter names that the first `n` of `kids` give.
pub open spec fn java_params_upto(t: TreeModel, src: Seq<u8>, kids: Seq<int>, n: int) -> Seq<
    Seq<char>,
>
    decreases n,
{
    if n <= 0 {
        Seq::empty()
    } else {
        java_params_upto(t, src, kids, n - 1) + java_param_at(t, src, kids[n - 1])
    }
}

/// The parameter names of the parameter list `p`.
pub open spec fn java_params(t: TreeModel, src: Seq<u8>, p: int) -> Seq<Seq<char>> {
    java_params_upto(t, src, t.children(p), t.children(p).len() as int)
}

/// The parameter names of the parameter list `p`.
pub fn extract_java_params(tree: &SyntaxTree, source: &[u8], p: usize) -> (out: Vec<String>)
    requires
        p < tree.size(),
    ensures
        out.deep_view() == java_params(tree@, source@, p as int),
{
    let kids = tree.children_of(p);
    let mut out: Vec<String> = Vec::new();
    let mut k: usize = 0;
    proof {
        assert(out.deep_view() =~= Seq::<Seq<char>>::empty());
    }
    while k < kids.len()
        invariant
            k <= kids.len(),
            ints(kids@) == tree.children(p as int),
            forall|j: int| 0 <= j < kids.len() ==> #[trigger] kids@[j] < tree.size(),
            out.deep_view() == java_params_upto(tree@, source@, ints(kids@), k as int),
        decreases kids.len() - k,
    {
        let c = kids[k];
        let ghost before = out.deep_view();
        proof {
            assert(ints(kids@)[k as int] == c as int);
        }
        if tree.kind_is(c, "formal_parameter") || tree.kind_is(c, "spread_parameter") {
            match field_text(tree, source, c, "name") {
                Some(n) => {
                    out.push(n);
                    proof {
                        assert(out.deep_view() =~= before + seq![n@]);
                    }
                },
                None => {},
            }
        }
        proof {
            assert(out.deep_view() =~= before + java_param_at(tree@, source@, c as int));
        }
        k += 1;
    }
    out
}

/// The parameter names of node `i`, from the list under its field
/// `parameters`.
pub open spec fn java_params_of(t: TreeModel, src: Seq<u8>, i: int) -> Seq<Seq<char>> {
    match t.child_by_field(i, "parameters"@) {
        Some(p) => java_params(t, src, p),
        None => Seq::empty(),
    }
}

/// The name under which a method is recorded.
pub open spec fn java_qualified(class: Option<Seq<char>>, name: Seq<char>) -> Seq<char> {
    match class {
        Some(c) => c + "."@ + name,
        None => name,
    }
}

/// The function that node `i` declares: a method or constructor with a
/// name.
pub open spec fn java_function_at(t: TreeModel, src: Seq<u8>, i: int) -> Seq<FunctionFact> {
    if t.kind(i) == "method_declaration"@ || t.kind(i) == "constructor_declaration"@ {
        match field_text_spec(t, src, i, "name"@) {
            Some(name) => seq![
                FunctionFact {
                    name: java_qualified(java_enclosing(t, src, i, t.nodes().len()), name),
                    start_line: t.nodes()[i].start_line,
                    end_line: t.nodes()[i].end_line,
                    params: java_params_of(t, src, i),
                    is_exported: java_has_modifier(t, src, i, "public"@),
                },
            ],
            None => Seq::empty(),
        }
    } else {
        Seq::empty()
    }
}

/// Appends the function that node `i` declares.
pub fn push_java_function(
    tree: &SyntaxTree,
    source: &[u8],
    i: usize,
    out: &mut Vec<FunctionInfo>,
)
    requires
        i < tree.size(),
    ensures
        final(out).deep_view() == old(out).deep_view() + java_function_at(
            tree@,
            source@,
            i as int,
        ),
{
    let ghost before = out.deep_view();
    if tree.kind_is(i, "method_declaration") || tree.kind_is(i, "constructor_declaration") {
        match field_text(tree, source, i, "name") {
            Some(bare) => {
                let name = match find_enclosing_class_name(tree, source, i) {
                    Some(class) => {
                        let mut buf = chars_of(class.as_str());
                        push_str(&mut buf, ".");
                        push_str(&mut buf, bare.as_str());
                        string_of(&buf)
                    },
                    None => bare,
                };
                let params = match tree.child_by_field_name(i, "parameters") {
                    Some(p) => extract_java_params(tree, source, p),
                    None => Vec::new(),
                };
                proof {
                    assert(params.deep_view() =~= java_params_of(tree@, source@, i as int));
                }
                let is_exported = has_modifier(tree, source, i, "public");
                let node = tree.node(i);
                let info = FunctionInfo {
                    name,
                    start_line: node.start_line,
                    end_line: node.end_line,
                    params,
                    is_exported,
                };
                out.push(info);
                proof {
                    assert(out.deep_view() =~= before + seq![info.deep_view()]);
                }
            },
            None => {},
        }
    }
    proof {
        assert(out.deep_view() =~= before + java_function_at(tree@, source@, i as int));
    }
}

/// The dotted path that the text of an import declaration names: the
/// text without the words `import` and `static` at its front, without
/// the semicolons at its end, and without white space around it.
pub open spec fn java_import_path(text: Seq<char>) -> Seq<char> {
    trim_ws(drop_set(trim_ws(skip_prefix(skip_prefix(trim_ws(text), "import"@), "static"@)), seq![';']))
}

/// The import that a dotted path stands for: the part before the last
/// dot is the source and the part behind it the name; a path without a
/// dot is a source without names.
pub open spec fn java_import_of(path: Seq<char>) -> ImportFact {
    let dot = last_index_of(path, '.');
    if dot >= 0 {
        ImportFact {
            source: path.take(dot),
            names: seq![path.skip(dot + 1)],
            is_default: false,
        }
    } else {
        ImportFact { source: path, names: Seq::empty(), is_default: false }
    }
}

/// The import that node `i` declares.
pub open spec fn java_import_at(t: TreeModel, src: Seq<u8>, i: int) -> Seq<ImportFact> {
    if t.kind(i) == "import_declaration"@ {
        seq![java_import_of(java_import_path(t.text(src, i)))]
    } else {
        Seq::empty()
    }
}

/// Appends the import that node `i` declares.
pub fn push_java_import(tree: &SyntaxTree, source: &[u8], i: usize, out: &mut Vec<ImportInfo>)
    requires
        i < tree.size(),
    ensures
        final(out).deep_view() == old(out).deep_view() + java_import_at(tree@, source@, i as int),
{
    let ghost before = out.deep_view();
    if tree.kind_is(i, "import_declaration") {
        let text = tree.node_text(source, i);
        let t0 = trim(&chars_of(text.as_str()));
        let t1 = trim_start_str(&t0, &chars_of("import"));
        let t2 = trim_start_str(&t1, &chars_of("static"));
        let t3 = trim(&t2);
        let semi: Vec<char> = vec![';'];
        proof {
            assert(semi@ =~= seq![';']);
        }
        let t4 = trim_end_set(&t3, &semi);
        let path = trim(&t4);
        proof {
            lemma_last_index_of(path@, '.');
        }
        let info = match rfind_char(&path, '.') {
            Some(dot) => {
                let head = slice_chars(&path, 0, dot);
                let tail = slice_chars(&path, dot + 1, path.len());
                let mut names: Vec<String> = Vec::new();
                names.push(string_of(&tail));
                proof {
                    assert(path@.subrange(dot + 1, path@.len() as int) =~= path@.skip(dot + 1));
                    assert(names.deep_view() =~= seq![path@.skip(dot + 1)]);
                }
                ImportInfo { source: string_of(&head), names, is_default: false }
            },
            None => {
                let names: Vec<String> = Vec::new();
                proof {
                    assert(names.deep_view() =~= Seq::<Seq<char>>::empty());
                }
                ImportInfo { source: string_of(&path), names, is_default: false }
            },
        };
        out.push(info);
        proof {
            assert(out.deep_view() =~= before + seq![info.deep_view()]);
        }
    }
    proof {
        assert(out.deep_view() =~= before + java_import_at(tree@, source@, i as int));
    }
}

/// The kind under which a declaration is recorded.
pub open spec fn java_decl_kind(kind: Seq<char>) -> Option<Seq<char>> {
    if kind == "class_declaration"@ {
        Some("class"@)
    } else if kind == "interface_declaration"@ {
        Some("interface"@)
    } else if kind == "enum_declaration"@ {
        Some("enum"@)
    } else {
        None
    }
}

/// The kind under which node `i` is recorded.
fn decl_kind(tree: &SyntaxTree, i: usize) -> (r: Option<String>)
    requires
        i < tree.size(),
    ensures
        r.deep_view() == java_decl_kind(tree.kind(i as int)),
{
    if tree.kind_is(i, "class_declaration") {
        Some(owned("class"))
    } else if tree.kind_is(i, "interface_declaration") {
        Some(owned("interface"))
    } else if tree.kind_is(i, "enum_declaration") {
        Some(owned("enum"))
    } else {
        None
    }
}

/// The export that node `i` declares: a public class, interface or enum
/// with a name.
pub open spec fn java_export_at(t: TreeModel, src: Seq<u8>, i: int) -> Seq<ExportFact> {
    match java_decl_kind(t.kind(i)) {
        Some(kind) => if java_has_modifier(t, src, i, "public"@) {
            match field_text_spec(t, src, i, "name"@) {
                Some(name) => seq![ExportFact { name, kind }],
                None => Seq::empty(),
            }
        } else {
            Seq::empty()
        },
        None => Seq::empty(),
    }
}

/// Appends the export that node `i` declares.
pub fn push_java_export(tree: &SyntaxTree, source: &[u8], i: usize, out: &mut Vec<ExportInfo>)
    requires
        i < tree.size(),
    ensures
        final(out).deep_view() == old(out).deep_view() + java_export_at(tree@, source@, i as int),
{
    let ghost before = out.deep_view();
    match decl_kind(tree, i) {
        Some(kind) => {
            if has_modifier(tree, source, i, "public") {
                match field_text(tree, source, i, "name") {
                    Some(name) => {
                        let info = ExportInfo { name, kind };
                        out.push(info);
                        proof {
                            assert(out.deep_view() =~= before + seq![info.deep_view()]);
                        }
                    },
                    None => {},
                }
            }
        },
        None => {},
    }
    proof {
        assert(out.deep_view() =~= before + java_export_at(tree@, source@, i as int));
    }
}

/// The method name that node `c` gives: a method declaration with a
/// name.
pub open spec fn java_method_at(t: TreeModel, src: Seq<u8>, c: int) -> Seq<Seq<char>> {
    if t.kind(c) == "method_declaration"@ {
        match field_text_spec(t, src, c, "name"@) {
            Some(n) => seq![n],
            None => Seq::empty(),
        }
    } else {
        Seq::empty()
    }
}

/// The method names that the nodes from `from` up to `to` give.
pub open spec fn java_methods_between(t: TreeModel, src: Seq<u8>, from: int, to: int) -> Seq<
    Seq<char>,
>
    decreases to - from,
{
    if to <= from {
        Seq::empty()
    } else {
        java_methods_between(t, src, from, to - 1) + java_method_at(t, src, to - 1)
    }
}

/// The names of the methods declared in the subtree of node `i`.
pub open spec fn java_methods(t: TreeModel, src: Seq<u8>, i: int) -> Seq<Seq<char>> {
    java_methods_between(t, src, i, t.ends()[i] as int)
}

/// The names of the methods declared in the subtree of node `i`.
pub fn extract_java_methods(tree: &SyntaxTree, source: &[u8], i: usize) -> (out: Vec<String>)
    requires
        i < tree.size(),
    ensures
        out.deep_view() == java_methods(tree@, source@, i as int),
{
    let end = tree.end(i);
    let mut out: Vec<String> = Vec::new();
    let mut c: usize = i;
    proof {
        assert(out.deep_view() =~= Seq::<Seq<char>>::empty());
    }
    while c < end
        invariant
            i <= c <= end,
            end <= tree.size(),
            out.deep_view() == java_methods_between(tree@, source@, i as int, c as int),
        decreases end - c,
    {
        let ghost before = out.deep_view();
        if tree.kind_is(c, "method_declaration") {
            match field_text(tree, source, c, "name") {
                Some(n) => {
                    out.push(n);
                    proof {
                        assert(out.deep_view() =~= before + seq![n@]);
                    }
                },
                None => {},
            }
        }
        proof {
            assert(out.deep_view() =~= before + java_method_at(tree@, source@, c as int));
        }
        c += 1;
    }
    out
}

/// The class that node `i` declares: a class, interface or enum with a
/// name, and the methods declared inside it.
pub open spec fn java_class_at(t: TreeModel, src: Seq<u8>, i: int) -> Seq<ClassFact> {
    match java_decl_kind(t.kind(i)) {
        Some(kind) => match field_text_spec(t, src, i, "name"@) {
            Some(name) => seq![
                ClassFact {
                    name,
                    start_line: t.nodes()[i].start_line,
                    end_line: t.nodes()[i].end_line,
                    methods: java_methods(t, src, i),
                    kind,
                },
            ],
            None => Seq::empty(),
        },
        None => Seq::empty(),
    }
}

/// Appends the class that node `i` declares.
pub fn push_java_class(tree: &SyntaxTree, source: &[u8], i: usize, out: &mut Vec<ClassInfo>)
    requires
        i < tree.size(),
    ensures
        final(out).deep_view() == old(out).deep_view() + java_class_at(tree@, source@, i as int),
{
    let ghost before = out.deep_view();
    match decl_kind(tree, i) {
        Some(kind) => {
            match field_text(tree, source, i, "name") {
                Some(name) => {
                    let methods = extract_java_methods(tree, source, i);
                    let node = tree.node(i);
                    let info = ClassInfo {
                        name,
                        start_line: node.start_line,
                        end_line: node.end_line,
                        methods,
                        kind,
                    };
                    out.push(info);
                    proof {
                        assert(out.deep_view() =~= before + seq![info.deep_view()]);
                    }
                },
                None => {},
            }
        },
        None => {},
    }
    proof {
        assert(out.deep_view() =~= before + java_class_at(tree@, source@, i as int));
    }
}

/// The adapter for Java.
#[derive(Debug, Clone, Copy)]
pub struct JavaAdapter;

impl JavaAdapter {
    /// The adapter.
    pub fn new() -> (a: Self) {
        JavaAdapter
    }

    /// The grammar that this adapter parses with.
    pub fn grammar(&self) -> (g: Grammar)
        ensures
            g == Grammar::Java,
    {
        Grammar::Java
    }

    /// Parses a source file. There is always a tree.
    pub fn parse(&self, source: &[u8]) -> (r: Option<SyntaxTree>)
        ensures
            match r {
                Some(t) => t.wf() && t.size() >= 1 && t@ == parsed_model(Grammar::Java, source@),
                None => false,
            },
    {
        parse_with(self.grammar(), source)
    }

    /// The functions of a parsed file.
    pub fn extract_functions(&self, tree: &SyntaxTree, source: &[u8]) -> (out: Vec<FunctionInfo>)
        ensures
            out.deep_view() == functions_spec(Language::Java, tree@, source@),
    {
        extract_functions(Language::Java, tree, source)
    }

    /// The imports of a parsed file.
    pub fn extract_imports(&self, tree: &SyntaxTree, source: &[u8]) -> (out: Vec<ImportInfo>)
        ensures
            out.deep_view() == imports_spec(Language::Java, tree@, source@),
    {
        extract_imports(Language::Java, tree, source)
    }

    /// The exports of a parsed file.
    pub fn extract_exports(&self, tree: &SyntaxTree, source: &[u8]) -> (out: Vec<ExportInfo>)
        ensures
            out.deep_view() == exports_spec(Language::Java, tree@, source@),
    {
        extract_exports(Language::Java, tree, source)
    }

    /// The classes of a parsed file.
    pub fn extract_classes(&self, tree: &SyntaxTree, source: &[u8]) -> (out: Vec<ClassInfo>)
        ensures
            out.deep_view() == classes_spec(Language::Java, tree@, source@),
    {
        extract_classes(Language::Java, tree, source)
    }
}

} // verus!
