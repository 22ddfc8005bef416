//! What the TypeScript and JavaScript adapters share. The flag `ts` says
//! whether the TypeScript rules apply: parameter names lose their type
//! annotations, and interfaces and type aliases count.

use crate::languages::facts::{
    field_text, field_text_spec, strip_quotes, strip_quotes_spec, ClassFact, ClassInfo, ExportFact,
    ExportInfo, FunctionFact, FunctionInfo, ImportFact, ImportInfo,
};
use crate::syntax::{ints, SyntaxTree, TreeModel};
use crate::text::{
    chars_of, drop_set, owned, pieces_view, skip_set, split_chars, split_on, string_of, trim,
    trim_end_set, trim_start_set, trim_ws,
};
use vstd::prelude::*;

verus! {

/// The parameter name that one piece of a parameter list gives: the
/// piece without white space around it, and under the TypeScript rules
/// without what follows its first colon.
pub open spec fn ecma_param_name(piece: Seq<char>, ts: bool) -> Seq<char> {
    if ts {
        trim_ws(split_on(trim_ws(piece), ':')[0])
    } else {
        trim_ws(piece)
    }
}

/// The parameter names that the first `n` pieces give: the names that
/// are not empty.
pub open spec fn ecma_param_names(pieces: Seq<Seq<char>>, ts: bool, n: int) -> Seq<Seq<char>>
    decreases n,
{
    if n <= 0 {
        Seq::empty()
    } else if ecma_param_name(pieces[n - 1], ts).len() > 0 {
        ecma_param_names(pieces, ts, n - 1).push(ecma_param_name(pieces[n - 1], ts))
    } else {
        ecma_param_names(pieces, ts, n - 1)
    }
}

/// The parameter names that the text of a parameter list gives: the
/// text without the parentheses at its ends, split at commas.
pub open spec fn ecma_params_of_text(text: Seq<char>, ts: bool) -> Seq<Seq<char>> {
    let inner = drop_set(skip_set(text, seq!['(']), seq![')']);
    ecma_param_names(split_on(inner, ','), ts, split_on(inner, ',').len() as int)
}

/// The parameter names that the text of a parameter list gives.
pub fn params_of_text(text: &str, ts: bool) -> (out: Vec<String>)
    ensures
        out.deep_view() == ecma_params_of_text(text@, ts),
{
    let open: Vec<char> = vec!['('];
    let close: Vec<char> = vec![')'];
    proof {
        assert(open@ =~= seq!['(']);
        assert(close@ =~= seq![')']);
    }
    let t0 = trim_start_set(&chars_of(text), &open);
    let inner = trim_end_set(&t0, &close);
    let pieces = split_chars(&inner, ',');
    let mut out: Vec<String> = Vec::new();
    let mut k: usize = 0;
    proof {
        assert(out.deep_view() =~= Seq::<Seq<char>>::empty());
    }
    while k < pieces.len()
        invariant
            k <= pieces.len(),
            out.deep_view() == ecma_param_names(pieces_view(pieces@), ts, k as int),
        decreases pieces.len() - k,
    {
        let ghost before = out.deep_view();
        proof {
            assert(pieces_view(pieces@)[k as int] == pieces@[k as int]@);
        }
        let trimmed = trim(&pieces[k]);
        let name = if ts {
            let parts = split_chars(&trimmed, ':');
            proof {
                assert(pieces_view(parts@)[0] == parts@[0]@);
            }
            trim(&parts[0])
        } else {
            trimmed
        };
        if name.len() > 0 {
            out.push(string_of(&name));
            proof {
                assert(out.deep_view() =~= before.push(name@));
            }
        }
        k += 1;
    }
    out
}

/// The parameter names of node `f`, from the text of the list under its
/// field `parameters`.
pub open spec fn ecma_params_of(t: TreeModel, src: Seq<u8>, f: int, ts: bool) -> Seq<Seq<char>> {
    match field_text_spec(t, src, f, "parameters"@) {
        Some(text) => ecma_params_of_text(text, ts),
        None => Seq::empty(),
    }
}

/// The parameter names of node `f`.
pub fn params_of(tree: &SyntaxTree, source: &[u8], f: usize, ts: bool) -> (out: Vec<String>)
    requires
        f < tree.size(),
    ensures
        out.deep_view() == ecma_params_of(tree@, source@, f as int, ts),
{
    match field_text(tree, source, f, "parameters") {
        Some(text) => params_of_text(text.as_str(), ts),
        None => {
            let out: Vec<String> = Vec::new();
            proof {
                assert(out.deep_view() =~= Seq::<Seq<char>>::empty());
            }
            out
        },
    }
}

/// Whether the parent of node `i` is of kind `kind`.
pub open spec fn parent_is(t: TreeModel, i: int, kind: Seq<char>) -> bool {
    match t.nodes()[i].parent {
        Some(p) => t.kind(p as int) == kind,
        None => false,
    }
}

/// Whether the parent of node `i` is of kind `kind`.
pub fn parent_kind_is(tree: &SyntaxTree, i: usize, kind: &str) -> (r: bool)
    requires
        i < tree.size(),
    ensures
        r == parent_is(tree@, i as int, kind@),
{
    match tree.parent(i) {
        Some(p) => tree.kind_is(p, kind),
        None => false,
    }
}

/// The arrow function that one declarator of the declaration `i` gives:
/// a declarator whose value is an arrow function and that has a name. It
/// is recorded with the lines of the declaration.
pub open spec fn ecma_arrow_at(t: TreeModel, src: Seq<u8>, i: int, c: int, ts: bool) -> Seq<
    FunctionFact,
> {
    if t.kind(c) == "variable_declarator"@ {
        match t.child_by_field(c, "value"@) {
            Some(v) => if t.kind(v) == "arrow_function"@ {
                match field_text_spec(t, src, c, "name"@) {
                    Some(name) => seq![
                        FunctionFact {
                            name,
                            start_line: t.nodes()[i].start_line,
                            end_line: t.nodes()[i].end_line,
                            params: ecma_params_of(t, src, v, ts),
                            is_exported: parent_is(t, i, "export_statement"@),
                        },
                    ],
                    None => Seq::empty(),
                }
            } else {
                Seq::empty()
            },
            None => Seq::empty(),
        }
    } else {
        Seq::empty()
    }
}

/// The arrow functions that the first `n` of `kids` give.
pub open spec fn ecma_arrows_upto(
    t: TreeModel,
    src: Seq<u8>,
    i: int,
    kids: Seq<int>,
    ts: bool,
    n: int,
) -> Seq<FunctionFact>
    decreases n,
{
    if n <= 0 {
        Seq::empty()
    } else {
        ecma_arrows_upto(t, src, i, kids, ts, n - 1) + ecma_arrow_at(t, src, i, kids[n - 1], ts)
    }
}

/// The functions that node `i` declares: a function declaration with a
/// name, or the arrow functions of a lexical declaration that stands at
/// the top of the program or under an export statement.
pub open spec fn ecma_function_at(t: TreeModel, src: Seq<u8>, i: int, ts: bool) -> Seq<
    FunctionFact,
> {
    if t.kind(i) == "function_declaration"@ {
        match field_text_spec(t, src, i, "name"@) {
            Some(name) => seq![
                FunctionFact {
                    name,
                    start_line: t.nodes()[i].start_line,
                    end_line: t.nodes()[i].end_line,
                    params: ecma_params_of(t, src, i, ts),
                    is_exported: parent_is(t, i, "export_statement"@),
                },
            ],
            None => Seq::empty(),
        }
    } else if t.kind(i) == "lexical_declaration"@ && (parent_is(t, i, "program"@) || parent_is(
        t,
        i,
        "export_statement"@,
    )) {
        ecma_arrows_upto(t, src, i, t.children(i), ts, t.children(i).len() as int)
    } else {
        Seq::empty()
    }
}

/// Appends the arrow function that the declarator `c` of the declaration
/// `i` gives, if it gives one.
fn push_ecma_arrow(
    tree: &SyntaxTree,
    source: &[u8],
    i: usize,
    c: usize,
    ts: bool,
    is_exported: bool,
    out: &mut Vec<FunctionInfo>,
)
    requires
        i < tree.size(),
        c < tree.size(),
        is_exported == parent_is(tree@, i as int, "export_statement"@),
    ensures
        final(out).deep_view() == old(out).deep_view() + ecma_arrow_at(
            tree@,
            source@,
            i as int,
            c as int,
            ts,
        ),
{
    let ghost before = out.deep_view();
    if tree.kind_is(c, "variable_declarator") {
        match tree.child_by_field_name(c, "value") {
            Some(v) => {
                if tree.kind_is(v, "arrow_function") {
                    match field_text(tree, source, c, "name") {
                        Some(name) => {
                            let params = params_of(tree, source, v, ts);
                            let node = tree.node(i);
                            let info = FunctionInfo {
                                name,
                                start_line: node.start_line,
                                end_line: node.end_line,
                                params,
                                is_exported,
                            };
                            out.push(info);
                            proof {
                                assert(out.deep_view() =~= before + seq![info.deep_view()]);
                            }
                        },
                        None => {},
                    }
                }
            },
            None => {},
        }
    }
    proof {
        assert(out.deep_view() =~= before + ecma_arrow_at(
            tree@,
            source@,
            i as int,
            c as int,
            ts,
        ));
    }
}

/// Appends the functions that node `i` declares.
pub fn push_ecma_function(
    tree: &SyntaxTree,
    source: &[u8],
    i: usize,
    ts: bool,
    out: &mut Vec<FunctionInfo>,
)
    requires
        i < tree.size(),
    ensures
        final(out).deep_view() == old(out).deep_view() + ecma_function_at(
            tree@,
            source@,
            i as int,
            ts,
        ),
{
    let ghost base = out.deep_view();
    if tree.kind_is(i, "function_declaration") {
        match field_text(tree, source, i, "name") {
            Some(name) => {
                let params = params_of(tree, source, i, ts);
                let is_exported = parent_kind_is(tree, i, "export_statement");
                let node = tree.node(i);
                let info = FunctionInfo {
                    name,
                    start_line: node.start_line,
                    end_line: node.end_line,
                    params,
                    is_exported,
                };
                out.push(info);
                proof {
                    assert(out.deep_view() =~= base + seq![info.deep_view()]);
                }
            },
            None => {},
        }
    } else if tree.kind_is(i, "lexical_declaration") && (parent_kind_is(tree, i, "program")
        || parent_kind_is(tree, i, "export_statement")) {
        let is_exported = parent_kind_is(tree, i, "export_statement");
        let kids = tree.children_of(i);
        let mut k: usize = 0;
        proof {
            assert(out.deep_view() =~= base + Seq::<FunctionFact>::empty());
        }
        while k < kids.len()
            invariant
                k <= kids.len(),
                i < tree.size(),
                is_exported == parent_is(tree@, i as int, "export_statement"@),
                ints(kids@) == tree.children(i as int),
                forall|j: int| 0 <= j < kids.len() ==> #[trigger] kids@[j] < tree.size(),
                out.deep_view() == base + ecma_arrows_upto(
                    tree@,
                    source@,
                    i as int,
                    ints(kids@),
                    ts,
                    k as int,
                ),
            decreases kids.len() - k,
        {
            let c = kids[k];
            let ghost before = out.deep_view();
            push_ecma_arrow(tree, source, i, c, ts, is_exported, out);
            proof {
                assert(ints(kids@)[k as int] == c as int);
                let step = ecma_arrow_at(tree@, source@, i as int, c as int, ts);
                assert(base + ecma_arrows_upto(tree@, source@, i as int, ints(kids@), ts, k + 1)
                    =~= (base + ecma_arrows_upto(
                    tree@,
                    source@,
                    i as int,
                    ints(kids@),
                    ts,
                    k as int,
                )) + step);
            }
            k += 1;
        }
    }
    proof {
        assert(out.deep_view() =~= base + ecma_function_at(tree@, source@, i as int, ts));
    }
}

/// The text of the child of `c` held under `name`, or else of its first
/// named child.
pub open spec fn name_or_first_named(t: TreeModel, src: Seq<u8>, c: int) -> Option<Seq<char>> {
    match t.child_by_field(c, "name"@) {
        Some(n) => Some(t.text(src, n)),
        None => match t.named_child(c) {
            Some(n) => Some(t.text(src, n)),
            None => None,
        },
    }
}

/// The text of the child of `c` held under `name`, or else of its first
/// named child.
pub fn name_or_named_child(tree: &SyntaxTree, source: &[u8], c: usize) -> (r: Option<String>)
    requires
        c < tree.size(),
    ensures
        r.deep_view() == name_or_first_named(tree@, source@, c as int),
{
    match tree.child_by_field_name(c, "name") {
        Some(n) => Some(tree.node_text(source, n)),
        None => match tree.first_named_child(c) {
            Some(n) => Some(tree.node_text(source, n)),
            None => None,
        },
    }
}

/// The name that one child of a list of specifiers gives, where the
/// child is of kind `kind`.
pub open spec fn ecma_specifier_at(t: TreeModel, src: Seq<u8>, c: int, kind: Seq<char>) -> Seq<
    Seq<char>,
> {
    if t.kind(c) == kind {
        match name_or_first_named(t, src, c) {
            Some(n) => seq![n],
            None => Seq::empty(),
        }
    } else {
        Seq::empty()
    }
}

/// The names that the first `n` of `kids` give as specifiers of kind
/// `kind`.
pub open spec fn ecma_specifiers_upto(
    t: TreeModel,
    src: Seq<u8>,
    kids: Seq<int>,
    kind: Seq<char>,
    n: int,
) -> Seq<Seq<char>>
    decreases n,
{
    if n <= 0 {
        Seq::empty()
    } else {
        ecma_specifiers_upto(t, src, kids, kind, n - 1) + ecma_specifier_at(
            t,
            src,
            kids[n - 1],
            kind,
        )
    }
}

/// The names of the specifiers of kind `kind` under node `list`.
pub open spec fn ecma_specifiers(t: TreeModel, src: Seq<u8>, list: int, kind: Seq<char>) -> Seq<
    Seq<char>,
> {
    ecma_specifiers_upto(t, src, t.children(list), kind, t.children(list).len() as int)
}

/// Appends the names of the specifiers of kind `kind` under node
/// `list`.
pub fn push_specifiers(
    tree: &SyntaxTree,
    source: &[u8],
    list: usize,
    kind: &str,
    names: &mut Vec<String>,
)
    requires
        list < tree.size(),
    ensures
        final(names).deep_view() == old(names).deep_view() + ecma_specifiers(
            tree@,
            source@,
            list as int,
            kind@,
        ),
{
    let ghost base = names.deep_view();
    let kids = tree.children_of(list);
    let mut k: usize = 0;
    proof {
        assert(names.deep_view() =~= base + Seq::<Seq<char>>::empty());
    }
    while k < kids.len()
        invariant
            k <= kids.len(),
            ints(kids@) == tree.children(list as int),
            forall|j: int| 0 <= j < kids.len() ==> #[trigger] kids@[j] < tree.size(),
            names.deep_view() == base + ecma_specifiers_upto(
                tree@,
                source@,
                ints(kids@),
                kind@,
                k as int,
            ),
        decreases kids.len() - k,
    {
        let c = kids[k];
        let ghost before = names.deep_view();
        proof {
            assert(ints(kids@)[k as int] == c as int);
        }
        if tree.kind_is(c, kind) {
            match name_or_named_child(tree, source, c) {
                Some(n) => {
                    names.push(n);
                    proof {
                        assert(names.deep_view() =~= before + seq![n@]);
                    }
                },
                None => {},
            }
        }
        proof {
            let step = ecma_specifier_at(tree@, source@, c as int, kind@);
            assert(names.deep_view() =~= before + step);
            assert(base + ecma_specifiers_upto(tree@, source@, ints(kids@), kind@, k + 1) =~= (
            base + ecma_specifiers_upto(tree@, source@, ints(kids@), kind@, k as int)) + step);
        }
        k += 1;
    }
}

/// The text that one child gives, where the child is of kind `kind`.
pub open spec fn text_if_kind(t: TreeModel, src: Seq<u8>, c: int, kind: Seq<char>) -> Seq<
    Seq<char>,
> {
    if t.kind(c) == kind {
        seq![t.text(src, c)]
    } else {
        Seq::empty()
    }
}

/// The texts of those of the first `n` of `kids` that are of kind
/// `kind`.
pub open spec fn texts_of_kind_upto(
    t: TreeModel,
    src: Seq<u8>,
    kids: Seq<int>,
    kind: Seq<char>,
    n: int,
) -> Seq<Seq<char>>
    decreases n,
{
    if n <= 0 {
        Seq::empty()
    } else {
        texts_of_kind_upto(t, src, kids, kind, n - 1) + text_if_kind(t, src, kids[n - 1], kind)
    }
}

/// The texts of the children of `p` that are of kind `kind`.
pub open spec fn texts_of_kind(t: TreeModel, src: Seq<u8>, p: int, kind: Seq<char>) -> Seq<
    Seq<char>,
> {
    texts_of_kind_upto(t, src, t.children(p), kind, t.children(p).len() as int)
}

/// Appends the texts of the children of `p` that are of kind `kind`.
pub fn push_texts_of_kind(
    tree: &SyntaxTree,
    source: &[u8],
    p: usize,
    kind: &str,
    names: &mut Vec<String>,
)
    requires
        p < tree.size(),
    ensures
        final(names).deep_view() == old(names).deep_view() + texts_of_kind(
            tree@,
            source@,
            p as int,
            kind@,
        ),
{
    let ghost base = names.deep_view();
    let kids = tree.children_of(p);
    let mut k: usize = 0;
    proof {
        assert(names.deep_view() =~= base + Seq::<Seq<char>>::empty());
    }
    while k < kids.len()
        invariant
            k <= kids.len(),
            ints(kids@) == tree.children(p as int),
            forall|j: int| 0 <= j < kids.len() ==> #[trigger] kids@[j] < tree.size(),
            names.deep_view() == base + texts_of_kind_upto(
                tree@,
                source@,
                ints(kids@),
                kind@,
                k as int,
            ),
        decreases kids.len() - k,
    {
        let c = kids[k];
        let ghost before = names.deep_view();
        proof {
            assert(ints(kids@)[k as int] == c as int);
        }
        if tree.kind_is(c, kind) {
            names.push(tree.node_text(source, c));
            proof {
                assert(names.deep_view() =~= before + seq![tree.text(source@, c as int)]);
            }
        }
        proof {
            let step = text_if_kind(tree@, source@, c as int, kind@);
            assert(names.deep_view() =~= before + step);
            assert(base + texts_of_kind_upto(tree@, source@, ints(kids@), kind@, k + 1) =~= (base
                + texts_of_kind_upto(tree@, source@, ints(kids@), kind@, k as int)) + step);
        }
        k += 1;
    }
}

/// The node that holds the source of the import `i`: the child under
/// the field `source`, or else the first string child.
pub open spec fn ecma_import_source(t: TreeModel, i: int) -> Option<int> {
    match t.child_by_field(i, "source"@) {
        Some(s) => Some(s),
        None => t.child_of_kind(i, "string"@),
    }
}

/// The names that the import clause `clause` brings in: the named
/// imports first, then the default binding.
pub open spec fn ecma_clause_names(t: TreeModel, src: Seq<u8>, clause: int) -> Seq<Seq<char>> {
    (match t.child_of_kind(clause, "named_imports"@) {
        Some(named) => ecma_specifiers(t, src, named, "import_specifier"@),
        None => Seq::empty(),
    }) + texts_of_kind(t, src, clause, "identifier"@)
}

/// The names that the import `i` brings in.
pub open spec fn ecma_import_names(t: TreeModel, src: Seq<u8>, i: int) -> Seq<Seq<char>> {
    match t.child_of_kind(i, "import_clause"@) {
        Some(clause) => ecma_clause_names(t, src, clause),
        None => Seq::empty(),
    }
}

/// The import that node `i` declares: an import statement with a
/// source.
pub open spec fn ecma_import_at(t: TreeModel, src: Seq<u8>, i: int) -> Seq<ImportFact> {
    if t.kind(i) == "import_statement"@ {
        match ecma_import_source(t, i) {
            Some(s) => seq![
                ImportFact {
                    source: strip_quotes_spec(t.text(src, s)),
                    names: ecma_import_names(t, src, i),
                    is_default: false,
                },
            ],
            None => Seq::empty(),
        }
    } else {
        Seq::empty()
    }
}

/// Appends the import that node `i` declares.
pub fn push_ecma_import(tree: &SyntaxTree, source: &[u8], i: usize, out: &mut Vec<ImportInfo>)
    requires
        i < tree.size(),
    ensures
        final(out).deep_view() == old(out).deep_view() + ecma_import_at(tree@, source@, i as int),
{
    let ghost base = out.deep_view();
    if tree.kind_is(i, "import_statement") {
        let source_node = match tree.child_by_field_name(i, "source") {
            Some(s) => Some(s),
            None => tree.find_child_of_type(i, "string"),
        };
        match source_node {
            Some(s) => {
                let text = tree.node_text(source, s);
                let src = strip_quotes(text.as_str());
                let mut names: Vec<String> = Vec::new();
                proof {
                    assert(names.deep_view() =~= Seq::<Seq<char>>::empty());
                }
                match tree.find_child_of_type(i, "import_clause") {
                    Some(clause) => {
                        match tree.find_child_of_type(clause, "named_imports") {
                            Some(named) => {
                                push_specifiers(tree, source, named, "import_specifier", &mut names);
                            },
                            None => {},
                        }
                        push_texts_of_kind(tree, source, clause, "identifier", &mut names);
                        proof {
                            assert(names.deep_view() =~= ecma_clause_names(
                                tree@,
                                source@,
                                clause as int,
                            ));
                        }
                    },
                    None => {},
                }
                let info = ImportInfo { source: src, names, is_default: false };
                out.push(info);
                proof {
                    assert(out.deep_view() =~= base + seq![info.deep_view()]);
                }
            },
            None => {},
        }
    }
    proof {
        assert(out.deep_view() =~= base + ecma_import_at(tree@, source@, i as int));
    }
}

/// Exports of kind `kind`, one per name.
pub open spec fn exports_of(names: Seq<Seq<char>>, kind: Seq<char>) -> Seq<ExportFact> {
    Seq::new(names.len(), |k: int| ExportFact { name: names[k], kind })
}

/// The export of the declaration of kind `decl` under the export
/// statement `i`, where that declaration has a name.
pub open spec fn ecma_named_export(
    t: TreeModel,
    src: Seq<u8>,
    i: int,
    decl: Seq<char>,
    kind: Seq<char>,
) -> Seq<ExportFact> {
    match t.child_of_kind(i, decl) {
        Some(d) => match field_text_spec(t, src, d, "name"@) {
            Some(name) => seq![ExportFact { name, kind }],
            None => Seq::empty(),
        },
        None => Seq::empty(),
    }
}

/// The name that one declarator gives.
pub open spec fn ecma_declarator_at(t: TreeModel, src: Seq<u8>, c: int) -> Seq<Seq<char>> {
    if t.kind(c) == "variable_declarator"@ {
        match field_text_spec(t, src, c, "name"@) {
            Some(n) => seq![n],
            None => Seq::empty(),
        }
    } else {
        Seq::empty()
    }
}

/// The names that the first `n` of `kids` give as declarators.
pub open spec fn ecma_declarators_upto(t: TreeModel, src: Seq<u8>, kids: Seq<int>, n: int) -> Seq<
    Seq<char>,
>
    decreases n,
{
    if n <= 0 {
        Seq::empty()
    } else {
        ecma_declarators_upto(t, src, kids, n - 1) + ecma_declarator_at(t, src, kids[n - 1])
    }
}

/// The names that the declarators of the lexical declaration `lex`
/// give.
pub open spec fn ecma_declarators(t: TreeModel, src: Seq<u8>, lex: int) -> Seq<Seq<char>> {
    ecma_declarators_upto(t, src, t.children(lex), t.children(lex).len() as int)
}

/// Appends the names that the declarators of `lex` give.
pub fn push_declarators(tree: &SyntaxTree, source: &[u8], lex: usize, names: &mut Vec<String>)
    requires
        lex < tree.size(),
    ensures
        final(names).deep_view() == old(names).deep_view() + ecma_declarators(
            tree@,
            source@,
            lex as int,
        ),
{
    let ghost base = names.deep_view();
    let kids = tree.children_of(lex);
    let mut k: usize = 0;
    proof {
        assert(names.deep_view() =~= base + Seq::<Seq<char>>::empty());
    }
    while k < kids.len()
        invariant
            k <= kids.len(),
            ints(kids@) == tree.children(lex as int),
            forall|j: int| 0 <= j < kids.len() ==> #[trigger] kids@[j] < tree.size(),
            names.deep_view() == base + ecma_declarators_upto(
                tree@,
                source@,
                ints(kids@),
                k as int,
            ),
        decreases kids.len() - k,
    {
        let c = kids[k];
        let ghost before = names.deep_view();
        proof {
            assert(ints(kids@)[k as int] == c as int);
        }
        if tree.kind_is(c, "variable_declarator") {
            match field_text(tree, source, c, "name") {
                Some(n) => {
                    names.push(n);
                    proof {
                        assert(names.deep_view() =~= before + seq![n@]);
                    }
                },
                None => {},
            }
        }
        proof {
            let step = ecma_declarator_at(tree@, source@, c as int);
            assert(names.deep_view() =~= before + step);
            assert(base + ecma_declarators_upto(tree@, source@, ints(kids@), k + 1) =~= (base
                + ecma_declarators_upto(tree@, source@, ints(kids@), k as int)) + step);
        }
        k += 1;
    }
}

/// The names that the export statement `i` exports as variables: those
/// of its lexical declaration, then those of its export clause.
pub open spec fn ecma_variable_names(t: TreeModel, src: Seq<u8>, i: int) -> Seq<Seq<char>> {
    (match t.child_of_kind(i, "lexical_declaration"@) {
        Some(lex) => ecma_declarators(t, src, lex),
        None => Seq::empty(),
    }) + (match t.child_of_kind(i, "export_clause"@) {
        Some(clause) => ecma_specifiers(t, src, clause, "export_specifier"@),
        None => Seq::empty(),
    })
}

/// The exports that node `i` declares: those of an export statement, in
/// the order function, class, interface, type, variables. Interfaces and
/// type aliases count under the TypeScript rules only.
pub open spec fn ecma_export_at(t: TreeModel, src: Seq<u8>, i: int, ts: bool) -> Seq<ExportFact> {
    if t.kind(i) == "export_statement"@ {
        ecma_named_export(t, src, i, "function_declaration"@, "function"@) + ecma_named_export(
            t,
            src,
            i,
            "class_declaration"@,
            "class"@,
        ) + (if ts {
            ecma_named_export(t, src, i, "interface_declaration"@, "interface"@)
                + ecma_named_export(t, src, i, "type_alias_declaration"@, "type"@)
        } else {
            Seq::empty()
        }) + exports_of(ecma_variable_names(t, src, i), "variable"@)
    } else {
        Seq::empty()
    }
}

/// Appends the export of the declaration of kind `decl` under `i`.
fn push_named_export(
    tree: &SyntaxTree,
    source: &[u8],
    i: usize,
    decl: &str,
    kind: &str,
    out: &mut Vec<ExportInfo>,
)
    requires
        i < tree.size(),
    ensures
        final(out).deep_view() == old(out).deep_view() + ecma_named_export(
            tree@,
            source@,
            i as int,
            decl@,
            kind@,
        ),
{
    let ghost base = out.deep_view();
    match tree.find_child_of_type(i, decl) {
        Some(d) => {
            match field_text(tree, source, d, "name") {
                Some(name) => {
                    let info = ExportInfo { name, kind: owned(kind) };
                    out.push(info);
                    proof {
                        assert(out.deep_view() =~= base + seq![info.deep_view()]);
                    }
                },
                None => {},
            }
        },
        None => {},
    }
    proof {
        assert(out.deep_view() =~= base + ecma_named_export(
            tree@,
            source@,
            i as int,
            decl@,
            kind@,
        ));
    }
}

/// Appends one export of kind `kind` per name.
pub fn push_exports_of(names: &Vec<String>, kind: &str, out: &mut Vec<ExportInfo>)
    ensures
        final(out).deep_view() == old(out).deep_view() + exports_of(names.deep_view(), kind@),
{
    let ghost base = out.deep_view();
    let ghost all = exports_of(names.deep_view(), kind@);
    let mut k: usize = 0;
    proof {
        assert(out.deep_view() =~= base + all.take(0));
    }
    while k < names.len()
        invariant
            k <= names.len(),
            all == exports_of(names.deep_view(), kind@),
            out.deep_view() == base + all.take(k as int),
        decreases names.len() - k,
    {
        let ghost before = out.deep_view();
        let info = ExportInfo { name: names[k].clone(), kind: owned(kind) };
        out.push(info);
        proof {
            assert(out.deep_view() =~= before.push(info.deep_view()));
            assert(all[k as int] == info.deep_view());
            assert(base + all.take(k + 1) =~= (base + all.take(k as int)).push(all[k as int]));
        }
        k += 1;
    }
    proof {
        assert(all.take(names@.len() as int) =~= all);
    }
}

/// Appends the exports that node `i` declares.
pub fn push_ecma_export(
    tree: &SyntaxTree,
    source: &[u8],
    i: usize,
    ts: bool,
    out: &mut Vec<ExportInfo>,
)
    requires
        i < tree.size(),
    ensures
        final(out).deep_view() == old(out).deep_view() + ecma_export_at(
            tree@,
            source@,
            i as int,
            ts,
        ),
{
    let ghost base = out.deep_view();
    if tree.kind_is(i, "export_statement") {
        push_named_export(tree, source, i, "function_declaration", "function", out);
        push_named_export(tree, source, i, "class_declaration", "class", out);
        if ts {
            push_named_export(tree, source, i, "interface_declaration", "interface", out);
            push_named_export(tree, source, i, "type_alias_declaration", "type", out);
        }
        let mut names: Vec<String> = Vec::new();
        proof {
            assert(names.deep_view() =~= Seq::<Seq<char>>::empty());
        }
        match tree.find_child_of_type(i, "lexical_declaration") {
            Some(lex) => {
                push_declarators(tree, source, lex, &mut names);
            },
            None => {},
        }
        match tree.find_child_of_type(i, "export_clause") {
            Some(clause) => {
                push_specifiers(tree, source, clause, "export_specifier", &mut names);
            },
            None => {},
        }
        proof {
            assert(names.deep_view() =~= ecma_variable_names(tree@, source@, i as int));
        }
        push_exports_of(&names, "variable", out);
    }
    proof {
        assert(out.deep_view() =~= base + ecma_export_at(tree@, source@, i as int, ts));
    }
}

/// The method name that node `c` gives: a method definition with a
/// name.
pub open spec fn ecma_method_at(t: TreeModel, src: Seq<u8>, c: int) -> Seq<Seq<char>> {
    if t.kind(c) == "method_definition"@ {
        match field_text_spec(t, src, c, "name"@) {
            Some(n) => seq![n],
            None => Seq::empty(),
        }
    } else {
        Seq::empty()
    }
}

/// The method names that the nodes from `from` up to `to` give.
pub open spec fn ecma_methods_between(t: TreeModel, src: Seq<u8>, from: int, to: int) -> Seq<
    Seq<char>,
>
    decreases to - from,
{
    if to <= from {
        Seq::empty()
    } else {
        ecma_methods_between(t, src, from, to - 1) + ecma_method_at(t, src, to - 1)
    }
}

/// The names of the methods defined in the subtree of node `i`.
pub open spec fn ecma_methods(t: TreeModel, src: Seq<u8>, i: int) -> Seq<Seq<char>> {
    ecma_methods_between(t, src, i, t.ends()[i] as int)
}

/// The names of the methods defined in the subtree of node `i`.
pub fn extract_class_methods(tree: &SyntaxTree, source: &[u8], i: usize) -> (out: Vec<String>)
    requires
        i < tree.size(),
    ensures
        out.deep_view() == ecma_methods(tree@, source@, i as int),
{
    let end = tree.end(i);
    let mut out: Vec<String> = Vec::new();
    let mut c: usize = i;
    proof {
        assert(out.deep_view() =~= Seq::<Seq<char>>::empty());
    }
    while c < end
        invariant
            i <= c <= end,
            end <= tree.size(),
            out.deep_view() == ecma_methods_between(tree@, source@, i as int, c as int),
        decreases end - c,
    {
        let ghost before = out.deep_view();
        if tree.kind_is(c, "method_definition") {
            match field_text(tree, source, c, "name") {
                Some(n) => {
                    out.push(n);
                    proof {
                        assert(out.deep_view() =~= before + seq![n@]);
                    }
                },
                None => {},
            }
        }
        proof {
            assert(out.deep_view() =~= before + ecma_method_at(tree@, source@, c as int));
        }
        c += 1;
    }
    out
}

/// The class that node `i` declares: a class declaration with a name
/// and its methods, or, under the TypeScript rules, an interface
/// declaration with a name.
pub open spec fn ecma_class_at(t: TreeModel, src: Seq<u8>, i: int, ts: bool) -> Seq<ClassFact> {
    if t.kind(i) == "class_declaration"@ {
        match field_text_spec(t, src, i, "name"@) {
            Some(name) => seq![
                ClassFact {
                    name,
                    start_line: t.nodes()[i].start_line,
                    end_line: t.nodes()[i].end_line,
                    methods: ecma_methods(t, src, i),
                    kind: "class"@,
                },
            ],
            None => Seq::empty(),
        }
    } else if ts && t.kind(i) == "interface_declaration"@ {
        match field_text_spec(t, src, i, "name"@) {
            Some(name) => seq![
                ClassFact {
                    name,
                    start_line: t.nodes()[i].start_line,
                    end_line: t.nodes()[i].end_line,
                    methods: Seq::empty(),
                    kind: "interface"@,
                },
            ],
            None => Seq::empty(),
        }
    } else {
        Seq::empty()
    }
}

/// Appends the class that node `i` declares.
pub fn push_ecma_class(
    tree: &SyntaxTree,
    source: &[u8],
    i: usize,
    ts: bool,
    out: &mut Vec<ClassInfo>,
)
    requires
        i < tree.size(),
    ensures
        final(out).deep_view() == old(out).deep_view() + ecma_class_at(
            tree@,
            source@,
            i as int,
            ts,
        ),
{
    let ghost base = out.deep_view();
    if tree.kind_is(i, "class_declaration") {
        match field_text(tree, source, i, "name") {
            Some(name) => {
                let methods = extract_class_methods(tree, source, i);
                let node = tree.node(i);
                let info = ClassInfo {
                    name,
                    start_line: node.start_line,
                    end_line: node.end_line,
                    methods,
                    kind: owned("class"),
                };
                out.push(info);
                proof {
                    assert(out.deep_view() =~= base + seq![info.deep_view()]);
                }
            },
            None => {},
        }
    } else if ts && tree.kind_is(i, "interface_declaration") {
        match field_text(tree, source, i, "name") {
            Some(name) => {
                let node = tree.node(i);
                let methods: Vec<String> = Vec::new();
                proof {
                    assert(methods.deep_view() =~= Seq::<Seq<char>>::empty());
                }
                let info = ClassInfo {
                    name,
                    start_line: node.start_line,
                    end_line: node.end_line,
                    methods,
                    kind: owned("interface"),
                };
                out.push(info);
                proof {
                    assert(out.deep_view() =~= base + seq![info.deep_view()]);
                }
            },
            None => {},
        }
    }
    proof {
        assert(out.deep_view() =~= base + ecma_class_at(tree@, source@, i as int, ts));
    }
}

} // verus!
