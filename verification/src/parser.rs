//! Parsing with tree-sitter: the grammars, the parser, and the walk that
//! copies a parsed tree into a `SyntaxTree`.

use crate::syntax::{
    children_from, children_named, kinship, lemma_walk_bounds, well_laid, NodeModel, SyntaxNode,
    SyntaxTree, TreeModel,
};
use crate::traverser::Language;
use vstd::prelude::*;

verus! {

// ---------------------------------------------------------------------------
// Outside types
// ---------------------------------------------------------------------------

/// `tree_sitter::Parser`, carried through as an opaque value.
#[verifier::external_type_specification]
#[verifier::external_body]
pub struct ExParser(tree_sitter::Parser);

/// `tree_sitter::Tree`, a parsed tree; only the copy reads it.
#[verifier::external_type_specification]
#[verifier::external_body]
pub struct ExTree(tree_sitter::Tree);

/// `tree_sitter::TreeCursor`, a position in a parsed tree.
#[verifier::external_type_specification]
#[verifier::external_body]
pub struct ExTreeCursor<'a>(tree_sitter::TreeCursor<'a>);

/// `tree_sitter::Node`, one node of a parsed tree.
#[verifier::external_type_specification]
#[verifier::external_body]
pub struct ExNode<'a>(tree_sitter::Node<'a>);

// ---------------------------------------------------------------------------
// Grammars
// ---------------------------------------------------------------------------

/// The grammars that can be parsed: one per language, and TSX beside
/// TypeScript.
#[derive(Debug, Clone, Copy, PartialEq, Eq, Structural)]
pub enum Grammar {
    TypeScript,
    Tsx,
    JavaScript,
    Python,
    Go,
    Rust,
    Java,
    C,
    Cpp,
}

/// The grammar that parses files of `language`.
pub open spec fn grammar_of_spec(language: Language) -> Grammar {
    match language {
        Language::TypeScript => Grammar::TypeScript,
        Language::JavaScript => Grammar::JavaScript,
        Language::Python => Grammar::Python,
        Language::Go => Grammar::Go,
        Language::Rust => Grammar::Rust,
        Language::Java => Grammar::Java,
        Language::C => Grammar::C,
        Language::Cpp => Grammar::Cpp,
    }
}

/// The grammar that parses files of `language`.
pub fn grammar_of(language: Language) -> (g: Grammar)
    ensures
        g == grammar_of_spec(language),
{
    match language {
        Language::TypeScript => Grammar::TypeScript,
        Language::JavaScript => Grammar::JavaScript,
        Language::Python => Grammar::Python,
        Language::Go => Grammar::Go,
        Language::Rust => Grammar::Rust,
        Language::Java => Grammar::Java,
        Language::C => Grammar::C,
        Language::Cpp => Grammar::Cpp,
    }
}

/// The grammar that has been assigned to the parser, if any: what
/// `Parser::language` tells of it.
pub uninterp spec fn parser_language(parser: tree_sitter::Parser) -> Option<Grammar>;

/// `Parser::set_language` with `tree_sitter_typescript::LANGUAGE_TYPESCRIPT`.
/// Trusted: the parser accepts this grammar, whose version it works
/// with, and the grammar is assigned to it.
#[verifier::external_body]
pub(crate) fn set_grammar_typescript(parser: &mut tree_sitter::Parser) -> (r: bool)
    ensures
        r,
        parser_language(*final(parser)) == Some(Grammar::TypeScript),
{
    parser.set_language(&tree_sitter_typescript::LANGUAGE_TYPESCRIPT.into()).is_ok()
}

/// `Parser::set_language` with `tree_sitter_typescript::LANGUAGE_TSX`.
/// Trusted: the parser accepts this grammar, whose version it works
/// with, and the grammar is assigned to it.
#[verifier::external_body]
pub(crate) fn set_grammar_tsx(parser: &mut tree_sitter::Parser) -> (r: bool)
    ensures
        r,
        parser_language(*final(parser)) == Some(Grammar::Tsx),
{
    parser.set_language(&tree_sitter_typescript::LANGUAGE_TSX.into()).is_ok()
}

/// `Parser::set_language` with `tree_sitter_javascript::LANGUAGE`.
/// Trusted: the parser accepts this grammar, whose version it works
/// with, and the grammar is assigned to it.
#[verifier::external_body]
pub(crate) fn set_grammar_javascript(parser: &mut tree_sitter::Parser) -> (r: bool)
    ensures
        r,
        parser_language(*final(parser)) == Some(Grammar::JavaScript),
{
    parser.set_language(&tree_sitter_javascript::LANGUAGE.into()).is_ok()
}

/// `Parser::set_language` with `tree_sitter_python::LANGUAGE`.
/// Trusted: the parser accepts this grammar, whose version it works
/// with, and the grammar is assigned to it.
#[verifier::external_body]
pub(crate) fn set_grammar_python(parser: &mut tree_sitter::Parser) -> (r: bool)
    ensures
        r,
        parser_language(*final(parser)) == Some(Grammar::Python),
{
    parser.set_language(&tree_sitter_python::LANGUAGE.into()).is_ok()
}

/// `Parser::set_language` with `tree_sitter_go::LANGUAGE`.
/// Trusted: the parser accepts this grammar, whose version it works
/// with, and the grammar is assigned to it.
#[verifier::external_body]
pub(crate) fn set_grammar_go(parser: &mut tree_sitter::Parser) -> (r: bool)
    ensures
        r,
        parser_language(*final(parser)) == Some(Grammar::Go),
{
    parser.set_language(&tree_sitter_go::LANGUAGE.into()).is_ok()
}

/// `Parser::set_language` with `tree_sitter_rust::LANGUAGE`.
/// Trusted: the parser accepts this grammar, whose version it works
/// with, and the grammar is assigned to it.
#[verifier::external_body]
pub(crate) fn set_grammar_rust(parser: &mut tree_sitter::Parser) -> (r: bool)
    ensures
        r,
        parser_language(*final(parser)) == Some(Grammar::Rust),
{
    parser.set_language(&tree_sitter_rust::LANGUAGE.into()).is_ok()
}

/// `Parser::set_language` with `tree_sitter_java::LANGUAGE`.
/// Trusted: the parser accepts this grammar, whose version it works
/// with, and the grammar is assigned to it.
#[verifier::external_body]
pub(crate) fn set_grammar_java(parser: &mut tree_sitter::Parser) -> (r: bool)
    ensures
        r,
        parser_language(*final(parser)) == Some(Grammar::Java),
{
    parser.set_language(&tree_sitter_java::LANGUAGE.into()).is_ok()
}

/// `Parser::set_language` with `tree_sitter_c::LANGUAGE`.
/// Trusted: the parser accepts this grammar, whose version it works
/// with, and the grammar is assigned to it.
#[verifier::external_body]
pub(crate) fn set_grammar_c(parser: &mut tree_sitter::Parser) -> (r: bool)
    ensures
        r,
        parser_language(*final(parser)) == Some(Grammar::C),
{
    parser.set_language(&tree_sitter_c::LANGUAGE.into()).is_ok()
}

/// `Parser::set_language` with `tree_sitter_cpp::LANGUAGE`.
/// Trusted: the parser accepts this grammar, whose version it works
/// with, and the grammar is assigned to it.
#[verifier::external_body]
pub(crate) fn set_grammar_cpp(parser: &mut tree_sitter::Parser) -> (r: bool)
    ensures
        r,
        parser_language(*final(parser)) == Some(Grammar::Cpp),
{
    parser.set_language(&tree_sitter_cpp::LANGUAGE.into()).is_ok()
}

/// Gives the parser the grammar to parse with, and says whether the
/// parser accepted it, as it always does.
fn select_grammar(parser: &mut tree_sitter::Parser, grammar: Grammar) -> (r: bool)
    ensures
        r,
        parser_language(*final(parser)) == Some(grammar),
{
    match grammar {
        Grammar::TypeScript => set_grammar_typescript(parser),
        Grammar::Tsx => set_grammar_tsx(parser),
        Grammar::JavaScript => set_grammar_javascript(parser),
        Grammar::Python => set_grammar_python(parser),
        Grammar::Go => set_grammar_go(parser),
        Grammar::Rust => set_grammar_rust(parser),
        Grammar::Java => set_grammar_java(parser),
        Grammar::C => set_grammar_c(parser),
        Grammar::Cpp => set_grammar_cpp(parser),
    }
}

// ---------------------------------------------------------------------------
// The parser and its trees
// ---------------------------------------------------------------------------

/// `tree_sitter::Parser::new`: a parser without a language.
#[verifier::external_body]
pub(crate) fn new_parser() -> tree_sitter::Parser {
    tree_sitter::Parser::new()
}

/// A node as the parser gives it: what the calls on a node and on a
/// cursor that stands on it return, and the index of its parent in
/// document order.
pub struct ParsedNode {
    pub kind: Seq<char>,
    pub named: bool,
    pub field: Option<Seq<char>>,
    pub start_byte: usize,
    pub end_byte: usize,
    pub start_row: usize,
    pub end_row: usize,
    pub parent: Option<usize>,
}

/// The nodes of the tree that parsing `source` with `grammar` gives, in
/// document order.
pub uninterp spec fn parsed_nodes(grammar: Grammar, source: Seq<u8>) -> Seq<ParsedNode>;

/// For each node of that tree the index just behind its last
/// descendant.
pub uninterp spec fn parsed_ends(grammar: Grammar, source: Seq<u8>) -> Seq<usize>;

/// The nodes of a parsed tree, in document order.
pub uninterp spec fn tree_nodes(tree: tree_sitter::Tree) -> Seq<ParsedNode>;

/// For each node of a parsed tree the index just behind its last
/// descendant.
pub uninterp spec fn tree_ends(tree: tree_sitter::Tree) -> Seq<usize>;

/// The nodes of the tree that a cursor walks.
pub uninterp spec fn cursor_nodes(cursor: tree_sitter::TreeCursor) -> Seq<ParsedNode>;

/// The extents of the tree that a cursor walks.
pub uninterp spec fn cursor_ends(cursor: tree_sitter::TreeCursor) -> Seq<usize>;

/// The index of the node that a cursor stands on.
pub uninterp spec fn cursor_index(cursor: tree_sitter::TreeCursor) -> int;

/// What the calls on a node return, and the parent of the node.
pub uninterp spec fn node_facts(node: tree_sitter::Node) -> ParsedNode;

/// What holds of every parsed tree: it has a root, which spans the
/// whole tree; a subtree starts at its node and lies inside the tree;
/// a parent precedes its child, and the subtree of the child lies
/// inside that of the parent.
pub open spec fn tree_laid(nodes: Seq<ParsedNode>, ends: Seq<usize>) -> bool {
    &&& nodes.len() == ends.len()
    &&& nodes.len() >= 1
    &&& ends[0] == nodes.len()
    &&& forall|i: int| 0 <= i < ends.len() ==> i < #[trigger] ends[i] <= ends.len()
    &&& forall|i: int|
        0 <= i < nodes.len() ==> match (#[trigger] nodes[i]).parent {
            Some(q) => q < i && i < ends[q as int] && ends[i] <= ends[q as int],
            None => i == 0,
        }
}

/// `tree_sitter::Parser::parse` on a whole text, without an old tree.
/// Trusted: a parser that a grammar was assigned to gives a tree; with
/// no old tree, no time limit and no callback there is no other way out.
/// The tree rests on the grammar and the text alone.
#[verifier::external_body]
pub(crate) fn parser_parse(parser: &mut tree_sitter::Parser, source: &[u8]) -> (r: Option<
    tree_sitter::Tree,
>)
    ensures
        match parser_language(*old(parser)) {
            Some(grammar) => match r {
                Some(tree) => tree_nodes(tree) == parsed_nodes(grammar, source@) && tree_ends(tree)
                    == parsed_ends(grammar, source@),
                None => false,
            },
            None => true,
        },
{
    parser.parse(source, None)
}

/// `tree_sitter::Tree::walk`: a cursor on the root of the tree.
/// Trusted: the cursor walks the nodes of the tree, and a tree is laid
/// out as a tree is.
#[verifier::external_body]
pub(crate) fn tree_walk<'a>(tree: &'a tree_sitter::Tree) -> (cursor: tree_sitter::TreeCursor<'a>)
    ensures
        cursor_nodes(cursor) == tree_nodes(*tree),
        cursor_ends(cursor) == tree_ends(*tree),
        cursor_index(cursor) == 0,
        tree_laid(cursor_nodes(cursor), cursor_ends(cursor)),
{
    tree.walk()
}

/// `tree_sitter::TreeCursor::node`: the node under the cursor.
#[verifier::external_body]
pub(crate) fn cursor_node<'a>(cursor: &tree_sitter::TreeCursor<'a>) -> (node: tree_sitter::Node<
    'a,
>)
    ensures
        node_facts(node) == cursor_nodes(*cursor)[cursor_index(*cursor)],
{
    cursor.node()
}

/// `tree_sitter::TreeCursor::field_name`: the field under which the
/// parent holds the node under the cursor.
#[verifier::external_body]
pub(crate) fn cursor_field_name<'a>(cursor: &tree_sitter::TreeCursor<'a>) -> (r: Option<String>)
    ensures
        r.deep_view() == cursor_nodes(*cursor)[cursor_index(*cursor)].field,
{
    cursor.field_name().map(|s| s.to_string())
}

/// `tree_sitter::TreeCursor::goto_first_child`; says whether it moved.
/// Trusted: the first child of a node is the node behind it in document
/// order; a node without children has a subtree of one node.
#[verifier::external_body]
pub(crate) fn cursor_goto_first_child<'a>(cursor: &mut tree_sitter::TreeCursor<'a>) -> (r: bool)
    ensures
        cursor_nodes(*final(cursor)) == cursor_nodes(*old(cursor)),
        cursor_ends(*final(cursor)) == cursor_ends(*old(cursor)),
        r == (cursor_index(*old(cursor)) + 1 < cursor_ends(*old(cursor))[cursor_index(
            *old(cursor),
        )]),
        r ==> cursor_index(*final(cursor)) == cursor_index(*old(cursor)) + 1 && cursor_nodes(
            *old(cursor),
        )[cursor_index(*old(cursor)) + 1].parent == Some(cursor_index(*old(cursor)) as usize),
        !r ==> cursor_index(*final(cursor)) == cursor_index(*old(cursor)),
{
    cursor.goto_first_child()
}

/// `tree_sitter::TreeCursor::goto_next_sibling`; says whether it moved.
/// Trusted: the next sibling of a node stands just behind its subtree
/// and has the same parent; the subtree of a last child ends where that
/// of its parent ends.
#[verifier::external_body]
pub(crate) fn cursor_goto_next_sibling<'a>(cursor: &mut tree_sitter::TreeCursor<'a>) -> (r: bool)
    ensures
        cursor_nodes(*final(cursor)) == cursor_nodes(*old(cursor)),
        cursor_ends(*final(cursor)) == cursor_ends(*old(cursor)),
        r == match cursor_nodes(*old(cursor))[cursor_index(*old(cursor))].parent {
            Some(q) => cursor_ends(*old(cursor))[cursor_index(*old(cursor))] < cursor_ends(
                *old(cursor),
            )[q as int],
            None => false,
        },
        r ==> cursor_index(*final(cursor)) == cursor_ends(*old(cursor))[cursor_index(
            *old(cursor),
        )] && cursor_nodes(*old(cursor))[cursor_index(*final(cursor))].parent == cursor_nodes(
            *old(cursor),
        )[cursor_index(*old(cursor))].parent,
        !r ==> cursor_index(*final(cursor)) == cursor_index(*old(cursor)),
{
    cursor.goto_next_sibling()
}

/// `tree_sitter::TreeCursor::goto_parent`; says whether it moved.
#[verifier::external_body]
pub(crate) fn cursor_goto_parent<'a>(cursor: &mut tree_sitter::TreeCursor<'a>) -> (r: bool)
    ensures
        cursor_nodes(*final(cursor)) == cursor_nodes(*old(cursor)),
        cursor_ends(*final(cursor)) == cursor_ends(*old(cursor)),
        match cursor_nodes(*old(cursor))[cursor_index(*old(cursor))].parent {
            Some(q) => r && cursor_index(*final(cursor)) == q,
            None => !r && cursor_index(*final(cursor)) == cursor_index(*old(cursor)),
        },
{
    cursor.goto_parent()
}

/// `tree_sitter::Node::kind`, of a node of a parsed tree.
#[verifier::external_body]
pub(crate) fn node_kind<'a>(node: &tree_sitter::Node<'a>) -> (r: String)
    ensures
        r@ == node_facts(*node).kind,
{
    node.kind().to_string()
}

/// `tree_sitter::Node::is_named`.
#[verifier::external_body]
pub(crate) fn node_is_named<'a>(node: &tree_sitter::Node<'a>) -> (r: bool)
    ensures
        r == node_facts(*node).named,
{
    node.is_named()
}

/// `tree_sitter::Node::start_byte`.
#[verifier::external_body]
pub(crate) fn node_start_byte<'a>(node: &tree_sitter::Node<'a>) -> (r: usize)
    ensures
        r == node_facts(*node).start_byte,
{
    node.start_byte()
}

/// `tree_sitter::Node::end_byte`.
#[verifier::external_body]
pub(crate) fn node_end_byte<'a>(node: &tree_sitter::Node<'a>) -> (r: usize)
    ensures
        r == node_facts(*node).end_byte,
{
    node.end_byte()
}

/// The row of `tree_sitter::Node::start_position`, counted from 0.
#[verifier::external_body]
pub(crate) fn node_start_row<'a>(node: &tree_sitter::Node<'a>) -> (r: usize)
    ensures
        r == node_facts(*node).start_row,
{
    node.start_position().row
}

/// The row of `tree_sitter::Node::end_position`, counted from 0.
#[verifier::external_body]
pub(crate) fn node_end_row<'a>(node: &tree_sitter::Node<'a>) -> (r: usize)
    ensures
        r == node_facts(*node).end_row,
{
    node.end_position().row
}

// ---------------------------------------------------------------------------
// Copying a tree
// ---------------------------------------------------------------------------

/// What holds of the extents of the nodes copied so far: `open` is the
/// chain of nodes whose subtree is still being copied, marked by an
/// extent of 0; every other node is laid out as `well_laid` asks.
spec fn partly_laid(nodes: Seq<SyntaxNode>, ends: Seq<usize>, open: Seq<usize>) -> bool {
    &&& nodes.len() == ends.len()
    &&& forall|a: int, b: int| 0 <= a < b < open.len() ==> open[a] < open[b]
    &&& forall|a: int| 0 <= a < open.len() ==> open[a] < ends.len() && ends[open[a] as int] == 0
    &&& forall|j: int| 0 <= j < ends.len() && ends[j] == 0 ==> open.contains(j as usize)
    &&& forall|i: int| 0 <= i < ends.len() && ends[i] != 0 ==> i < #[trigger] ends[i] <= ends.len()
    &&& forall|i: int, j: int|
        0 <= i < j < ends.len() && ends[i] != 0 && j < ends[i] ==> 0 < #[trigger] ends[j]
            <= #[trigger] ends[i]
    &&& forall|i: int|
        0 <= i < nodes.len() ==> match (#[trigger] nodes[i]).parent {
            Some(p) => p < i && (ends[p as int] == 0 || i < ends[p as int]),
            None => i == 0,
        }
}

/// Whether the walk from `from` along the extents arrives at `to`.
spec fn covers(ends: Seq<usize>, from: int, to: int) -> bool
    decreases to - from,
{
    from == to || (0 <= from < to && from < ends.len() && from < ends[from] <= to && covers(
        ends,
        ends[from] as int,
        to,
    ))
}

/// Where the children of the open node at position `a` of the chain end
/// for now: at the next open node, or where the copy stands.
spec fn reach(ends: Seq<usize>, open: Seq<usize>, a: int) -> int {
    if a + 1 < open.len() {
        open[a + 1] as int
    } else {
        ends.len() as int
    }
}

/// What holds of parents and children among the nodes copied so far:
/// the children met so far name their parent, every node is met from its
/// parent or is the next open node behind it, and the chain of open
/// nodes runs from the root down.
spec fn linked(nodes: Seq<SyntaxNode>, ends: Seq<usize>, open: Seq<usize>) -> bool {
    &&& forall|p: int|
        0 <= p < ends.len() && ends[p] != 0 ==> covers(ends, p + 1, #[trigger] ends[p] as int)
            && children_named(nodes, ends, p, ends[p] as int)
    &&& forall|a: int|
        0 <= a < open.len() ==> covers(ends, #[trigger] open[a] as int + 1, reach(ends, open, a))
            && children_named(nodes, ends, open[a] as int, reach(ends, open, a))
    &&& forall|c: int|
        0 <= c < nodes.len() ==> match (#[trigger] nodes[c]).parent {
            Some(p) => if ends[p as int] != 0 {
                children_from(ends, p as int + 1, ends[p as int] as int).contains(c)
            } else {
                exists|a: int|
                    0 <= a < open.len() && #[trigger] open[a] == p && (children_from(
                        ends,
                        p as int + 1,
                        reach(ends, open, a),
                    ).contains(c) || (a + 1 < open.len() && open[a + 1] == c))
            },
            None => true,
        }
    &&& forall|a: int|
        0 <= a < open.len() - 1 ==> (#[trigger] nodes[open[a + 1] as int]).parent == Some(open[a])
    &&& forall|j: int, a: int|
        0 <= j < ends.len() && ends[j] != 0 && 0 <= a < open.len() && j < open[a]
            ==> #[trigger] ends[j] <= #[trigger] open[a]
}

/// A walk depends on the extents inside its range alone.
proof fn lemma_walk_frame(e1: Seq<usize>, e2: Seq<usize>, from: int, to: int)
    requires
        to <= e1.len(),
        to <= e2.len(),
        forall|x: int| from <= x < to ==> e1[x] == e2[x],
    ensures
        children_from(e1, from, to) == children_from(e2, from, to),
        covers(e1, from, to) == covers(e2, from, to),
    decreases to - from,
{
    if 0 <= from < to {
        if from < e1[from] <= to {
            lemma_walk_frame(e1, e2, e1[from] as int, to);
        }
    }
}

/// A walk that arrives at a node goes on to the end of its subtree, and
/// meets that node on the way.
proof fn lemma_walk_extend(ends: Seq<usize>, from: int, mid: int, to: int)
    requires
        0 <= from <= mid < ends.len(),
        covers(ends, from, mid),
        mid < ends[mid],
        ends[mid] == to,
    ensures
        covers(ends, from, to),
        children_from(ends, from, to) == children_from(ends, from, mid).push(mid),
    decreases mid - from,
{
    if from == mid {
        assert(children_from(ends, mid, mid) =~= Seq::<int>::empty());
        assert(covers(ends, to, to));
        assert(children_from(ends, to, to) =~= Seq::<int>::empty());
        assert(children_from(ends, mid, to) =~= Seq::<int>::empty().push(mid));
    } else {
        let next = ends[from] as int;
        lemma_walk_extend(ends, next, mid, to);
        assert(children_from(ends, from, to) =~= (seq![from] + children_from(ends, next, mid)).push(
            mid,
        ));
    }
}

/// With nothing left open, what was copied is a well laid tree.
proof fn lemma_all_closed(nodes: Seq<SyntaxNode>, ends: Seq<usize>)
    requires
        partly_laid(nodes, ends, Seq::empty()),
        linked(nodes, ends, Seq::empty()),
    ensures
        well_laid(nodes, ends),
{
    reveal(kinship);
    assert forall|j: int| 0 <= j < ends.len() implies ends[j] != 0 by {
        if ends[j] == 0 {
            assert(Seq::<usize>::empty().contains(j as usize));
        }
    }
    assert forall|i: int| 0 <= i < nodes.len() implies match (#[trigger] nodes[i]).parent {
        Some(p) => p < i && i < ends[p as int],
        None => i == 0,
    } by {}
    assert forall|p: int| 0 <= p < nodes.len() implies children_named(
        nodes,
        ends,
        p,
        #[trigger] ends[p] as int,
    ) by {}
    assert forall|c: int| 0 <= c < nodes.len() implies match (#[trigger] nodes[c]).parent {
        Some(p) => children_from(ends, p as int + 1, ends[p as int] as int).contains(c),
        None => true,
    } by {}
}

/// The extents after a node is opened behind the nodes copied so far.
proof fn lemma_open_partly(
    n0: Seq<SyntaxNode>,
    e0: Seq<usize>,
    o0: Seq<usize>,
    node: SyntaxNode,
    idx: usize,
)
    requires
        idx == n0.len(),
        partly_laid(n0, e0, o0),
        o0.len() == 0 ==> n0.len() == 0,
        node.parent == if o0.len() > 0 {
            Some(o0[o0.len() - 1])
        } else {
            None::<usize>
        },
    ensures
        partly_laid(n0.push(node), e0.push(0), o0.push(idx)),
{
    let n1 = n0.push(node);
    let e1 = e0.push(0);
    let o1 = o0.push(idx);
    let k = o0.len() as int;
    assert forall|a: int, b: int| 0 <= a < b < o1.len() implies o1[a] < o1[b] by {
        if b == k {
            assert(o0[a] < e0.len());
        } else {
            assert(o0[a] < o0[b]);
        }
    }
    assert forall|a: int| 0 <= a < o1.len() implies o1[a] < e1.len() && e1[o1[a] as int] == 0 by {
        if a < k {
            assert(o0[a] < e0.len() && e0[o0[a] as int] == 0);
        }
    }
    assert forall|j: int| 0 <= j < e1.len() && e1[j] == 0 implies o1.contains(j as usize) by {
        if j < e0.len() {
            assert(o0.contains(j as usize));
            let a = choose|a: int| 0 <= a < o0.len() && o0[a] == j as usize;
            assert(o1[a] == j as usize);
        } else {
            assert(o1[k] == j as usize);
        }
    }
    assert forall|i: int| 0 <= i < e1.len() && e1[i] != 0 implies i < #[trigger] e1[i]
        <= e1.len() by {
        assert(i < e0[i] <= e0.len());
    }
    assert forall|i: int, j: int|
        0 <= i < j < e1.len() && e1[i] != 0 && j < e1[i] implies 0 < #[trigger] e1[j]
        <= #[trigger] e1[i] by {
        assert(e0[i] <= e0.len());
        assert(0 < e0[j] <= e0[i]);
    }
    assert forall|i: int| 0 <= i < n1.len() implies match (#[trigger] n1[i]).parent {
        Some(p) => p < i && (e1[p as int] == 0 || i < e1[p as int]),
        None => i == 0,
    } by {
        if i < n0.len() {
            assert(n1[i] == n0[i]);
            match n0[i].parent {
                Some(p) => {
                    assert(e1[p as int] == e0[p as int]);
                    if e0[p as int] != 0 {
                        assert(e0[p as int] <= e0.len());
                    }
                },
                None => {},
            }
        } else if k > 0 {
            assert(o0[k - 1] < e0.len());
        }
    }
}

/// Parents and children after a node is opened behind the nodes copied
/// so far.
proof fn lemma_open_linked(
    n0: Seq<SyntaxNode>,
    e0: Seq<usize>,
    o0: Seq<usize>,
    node: SyntaxNode,
    idx: usize,
)
    requires
        idx == n0.len(),
        partly_laid(n0, e0, o0),
        linked(n0, e0, o0),
        o0.len() == 0 ==> n0.len() == 0,
        node.parent == if o0.len() > 0 {
            Some(o0[o0.len() - 1])
        } else {
            None::<usize>
        },
    ensures
        linked(n0.push(node), e0.push(0), o0.push(idx)),
{
    let n1 = n0.push(node);
    let e1 = e0.push(0);
    let o1 = o0.push(idx);
    let k = o0.len() as int;
    assert forall|a: int| 0 <= a < k implies reach(e1, o1, a) == reach(e0, o0, a) && reach(
        e0,
        o0,
        a,
    ) <= e0.len() && #[trigger] o0[a] < e0.len() by {
        if a + 1 < k {
            assert(o0[a + 1] < e0.len());
        }
    }
    assert forall|p: int| 0 <= p < e1.len() && e1[p] != 0 implies covers(
        e1,
        p + 1,
        #[trigger] e1[p] as int,
    ) && children_named(n1, e1, p, e1[p] as int) by {
        assert(e0[p] != 0 && e0[p] <= e0.len());
        lemma_walk_frame(e0, e1, p + 1, e0[p] as int);
        lemma_named_frame(n0, n1, e0, e1, p, e0[p] as int);
    }
    assert forall|a: int| 0 <= a < o1.len() implies covers(
        e1,
        #[trigger] o1[a] as int + 1,
        reach(e1, o1, a),
    ) && children_named(n1, e1, o1[a] as int, reach(e1, o1, a)) by {
        if a < k {
            assert(o1[a] == o0[a]);
            assert(covers(e0, o0[a] as int + 1, reach(e0, o0, a)));
            lemma_walk_frame(e0, e1, o0[a] as int + 1, reach(e0, o0, a));
            lemma_named_frame(n0, n1, e0, e1, o0[a] as int, reach(e0, o0, a));
        } else {
            assert(reach(e1, o1, a) == idx + 1);
            assert(children_from(e1, idx as int + 1, idx as int + 1) =~= Seq::<int>::empty());
        }
    }
    assert forall|c: int| 0 <= c < n1.len() implies match (#[trigger] n1[c]).parent {
        Some(p) => if e1[p as int] != 0 {
            children_from(e1, p as int + 1, e1[p as int] as int).contains(c)
        } else {
            exists|a: int|
                0 <= a < o1.len() && #[trigger] o1[a] == p && (children_from(
                    e1,
                    p as int + 1,
                    reach(e1, o1, a),
                ).contains(c) || (a + 1 < o1.len() && o1[a + 1] == c))
        },
        None => true,
    } by {
        if c < n0.len() {
            assert(n1[c] == n0[c]);
            match n0[c].parent {
                Some(p) => {
                    assert(p < c);
                    if e0[p as int] != 0 {
                        assert(e0[p as int] <= e0.len());
                        lemma_walk_frame(e0, e1, p as int + 1, e0[p as int] as int);
                    } else {
                        let a = choose|a: int|
                            0 <= a < o0.len() && #[trigger] o0[a] == p && (children_from(
                                e0,
                                p as int + 1,
                                reach(e0, o0, a),
                            ).contains(c) || (a + 1 < o0.len() && o0[a + 1] == c));
                        lemma_walk_frame(e0, e1, p as int + 1, reach(e0, o0, a));
                        assert(o1[a] == p);
                        assert(e1[p as int] == 0);
                    }
                },
                None => {},
            }
        } else if k > 0 {
            assert(o1[k - 1] == o0[k - 1]);
            assert(o0[k - 1] < e0.len());
            assert(e1[o0[k - 1] as int] == 0);
            assert(o1[k] == c);
        }
    }
    assert forall|a: int| 0 <= a < o1.len() - 1 implies (#[trigger] n1[o1[a + 1] as int]).parent
        == Some(o1[a]) by {
        if a + 1 < k {
            assert(o0[a + 1] < e0.len());
            assert(n1[o1[a + 1] as int] == n0[o0[a + 1] as int]);
        }
    }
    assert forall|j: int, a: int|
        0 <= j < e1.len() && e1[j] != 0 && 0 <= a < o1.len() && j < o1[a] implies #[trigger] e1[j]
        <= #[trigger] o1[a] by {
        if a < k {
            assert(e0[j] <= o0[a]);
        } else {
            assert(e0[j] <= e0.len());
        }
    }
}

/// Whether the children of a node name it depends on the nodes and
/// extents inside the walk alone.
proof fn lemma_named_frame(
    n0: Seq<SyntaxNode>,
    n1: Seq<SyntaxNode>,
    e0: Seq<usize>,
    e1: Seq<usize>,
    p: int,
    to: int,
)
    requires
        0 <= p,
        to <= e0.len(),
        to <= e1.len(),
        to <= n0.len(),
        to <= n1.len(),
        forall|x: int| p < x < to ==> e0[x] == e1[x] && n0[x] == n1[x],
        children_named(n0, e0, p, to),
    ensures
        children_named(n1, e1, p, to),
{
    lemma_walk_frame(e0, e1, p + 1, to);
    let list = children_from(e0, p + 1, to);
    assert forall|k: int| 0 <= k < list.len() implies p < #[trigger] list[k] < to by {
        lemma_walk_bounds(e0, p + 1, to, k);
    }
}

/// Opens a node behind the nodes copied so far: a child of the
/// innermost open node, or the root.
fn open_node(
    nodes: &mut Vec<SyntaxNode>,
    ends: &mut Vec<usize>,
    open: &mut Vec<usize>,
    node: SyntaxNode,
)
    requires
        partly_laid(old(nodes)@, old(ends)@, old(open)@),
        linked(old(nodes)@, old(ends)@, old(open)@),
        old(open).len() == 0 ==> old(nodes).len() == 0,
        node.parent == if old(open).len() > 0 {
            Some(old(open)@[old(open).len() - 1])
        } else {
            None::<usize>
        },
    ensures
        partly_laid(final(nodes)@, final(ends)@, final(open)@),
        linked(final(nodes)@, final(ends)@, final(open)@),
        final(nodes)@ == old(nodes)@.push(node),
        final(ends)@ == old(ends)@.push(0),
        final(open)@ == old(open)@.push(old(nodes).len()),
{
    proof {
        lemma_open_partly(nodes@, ends@, open@, node, nodes.len());
        lemma_open_linked(nodes@, ends@, open@, node, nodes.len());
    }
    let idx = nodes.len();
    nodes.push(node);
    ends.push(0);
    open.push(idx);
}

/// The extents after the innermost open node is closed.
proof fn lemma_close_partly(n: Seq<SyntaxNode>, e0: Seq<usize>, o0: Seq<usize>, len: usize)
    requires
        len == n.len(),
        partly_laid(n, e0, o0),
        o0.len() > 0,
    ensures
        partly_laid(n, e0.update(o0.last() as int, len), o0.drop_last()),
        forall|j: int| o0.last() < j < e0.len() ==> e0[j] != 0,
{
    let cur = o0.last();
    let e1 = e0.update(cur as int, len);
    let o1 = o0.drop_last();
    let k = o0.len() as int;
    assert(cur == o0[k - 1]);
    assert(cur < e0.len());
    assert forall|a: int, b: int| 0 <= a < b < o1.len() implies o1[a] < o1[b] by {
        assert(o0[a] < o0[b]);
    }
    assert forall|a: int| 0 <= a < o1.len() implies o1[a] < e1.len() && e1[o1[a] as int] == 0 by {
        assert(o0[a] < o0[k - 1]);
        assert(o0[a] < e0.len() && e0[o0[a] as int] == 0);
    }
    assert forall|j: int| 0 <= j < e1.len() && e1[j] == 0 implies o1.contains(j as usize) by {
        assert(o0.contains(j as usize));
        let a = choose|a: int| 0 <= a < o0.len() && o0[a] == j as usize;
        assert(o1[a] == j as usize);
    }
    assert forall|j: int| cur < j < e0.len() implies e0[j] != 0 by {
        if e0[j] == 0 {
            assert(o0.contains(j as usize));
            let a = choose|a: int| 0 <= a < o0.len() && o0[a] == j as usize;
            if a < k - 1 {
                assert(o0[a] < o0[k - 1]);
            }
        }
    }
    assert forall|i: int| 0 <= i < e1.len() && e1[i] != 0 implies i < #[trigger] e1[i]
        <= e1.len() by {
        if i != cur {
            assert(i < e0[i] <= e0.len());
        }
    }
    assert forall|i: int, j: int|
        0 <= i < j < e1.len() && e1[i] != 0 && j < e1[i] implies 0 < #[trigger] e1[j]
        <= #[trigger] e1[i] by {
        if i == cur {
            assert(e0[j] != 0);
            assert(j < e0[j] <= e0.len());
        } else if j == cur {
            assert(0 < e0[j] <= e0[i]);
        } else {
            assert(0 < e0[j] <= e0[i]);
        }
    }
    assert forall|i: int| 0 <= i < n.len() implies match (#[trigger] n[i]).parent {
        Some(p) => p < i && (e1[p as int] == 0 || i < e1[p as int]),
        None => i == 0,
    } by {}
}

/// The children of closed nodes after the innermost open node is
/// closed.
proof fn lemma_close_closed(n: Seq<SyntaxNode>, e0: Seq<usize>, o0: Seq<usize>, len: usize)
    requires
        len == n.len(),
        partly_laid(n, e0, o0),
        linked(n, e0, o0),
        o0.len() > 0,
    ensures
        forall|p: int|
            0 <= p < e0.len() && e0.update(o0.last() as int, len)[p] != 0 ==> covers(
                e0.update(o0.last() as int, len),
                p + 1,
                #[trigger] e0.update(o0.last() as int, len)[p] as int,
            ) && children_named(
                n,
                e0.update(o0.last() as int, len),
                p,
                e0.update(o0.last() as int, len)[p] as int,
            ),
{
    let cur = o0.last();
    let e1 = e0.update(cur as int, len);
    let k = o0.len() as int;
    assert(cur == o0[k - 1]);
    assert(cur < e0.len());
    assert forall|p: int| 0 <= p < e1.len() && e1[p] != 0 implies covers(
        e1,
        p + 1,
        #[trigger] e1[p] as int,
    ) && children_named(n, e1, p, e1[p] as int) by {
        if p == cur {
            assert(reach(e0, o0, k - 1) == len);
            assert(covers(e0, o0[k - 1] as int + 1, reach(e0, o0, k - 1)));
            assert(children_named(n, e0, o0[k - 1] as int, reach(e0, o0, k - 1)));
            lemma_walk_frame(e0, e1, cur as int + 1, len as int);
            lemma_named_frame(n, n, e0, e1, cur as int, len as int);
        } else {
            assert(e0[p] != 0 && e0[p] <= e0.len());
            if p < cur {
                assert(e0[p] <= o0[k - 1]);
            }
            assert(covers(e0, p + 1, e0[p] as int));
            assert(children_named(n, e0, p, e0[p] as int));
            lemma_walk_frame(e0, e1, p + 1, e0[p] as int);
            lemma_named_frame(n, n, e0, e1, p, e0[p] as int);
        }
    }
}

/// The children of open nodes after the innermost open node is closed.
proof fn lemma_close_open(
    n: Seq<SyntaxNode>,
    e0: Seq<usize>,
    o0: Seq<usize>,
    len: usize,
    a: int,
)
    requires
        len == n.len(),
        partly_laid(n, e0, o0),
        linked(n, e0, o0),
        o0.len() > 0,
        0 <= a < o0.len() - 1,
    ensures
        covers(
            e0.update(o0.last() as int, len),
            o0[a] as int + 1,
            reach(e0.update(o0.last() as int, len), o0.drop_last(), a),
        ),
        children_named(
            n,
            e0.update(o0.last() as int, len),
            o0[a] as int,
            reach(e0.update(o0.last() as int, len), o0.drop_last(), a),
        ),
        a == o0.len() - 2 ==> children_from(
            e0.update(o0.last() as int, len),
            o0[a] as int + 1,
            n.len() as int,
        ) == children_from(e0, o0[a] as int + 1, o0.last() as int).push(o0.last() as int),
        a < o0.len() - 2 ==> children_from(
            e0.update(o0.last() as int, len),
            o0[a] as int + 1,
            o0[a + 1] as int,
        ) == children_from(e0, o0[a] as int + 1, o0[a + 1] as int),
{
    let cur = o0.last();
    let e1 = e0.update(cur as int, len);
    let o1 = o0.drop_last();
    let k = o0.len() as int;
    let p = o0[a] as int;
    assert(cur == o0[k - 1]);
    assert(cur < e0.len());
    assert(o0[a] < o0[k - 1]);
    assert(covers(e0, p + 1, reach(e0, o0, a)));
    assert(children_named(n, e0, p, reach(e0, o0, a)));
    if a == k - 2 {
        assert(reach(e0, o0, a) == cur);
        assert(reach(e1, o1, a) == len);
        lemma_walk_frame(e0, e1, p + 1, cur as int);
        lemma_named_frame(n, n, e0, e1, p, cur as int);
        lemma_walk_extend(e1, p + 1, cur as int, len as int);
        assert(n[o0[a + 1] as int].parent == Some(o0[a]));
        let old_list = children_from(e1, p + 1, cur as int);
        let new_list = children_from(e1, p + 1, len as int);
        assert(new_list == old_list.push(cur as int));
        assert forall|x: int| 0 <= x < new_list.len() implies 0 <= #[trigger] new_list[x] < n.len()
            && n[new_list[x]].parent == Some(p as usize) by {
            if x < old_list.len() {
                assert(new_list[x] == old_list[x]);
            }
        }
    } else {
        assert(o0[a + 1] < o0[k - 1]);
        assert(reach(e1, o1, a) == reach(e0, o0, a));
        lemma_walk_frame(e0, e1, p + 1, reach(e0, o0, a));
        lemma_named_frame(n, n, e0, e1, p, reach(e0, o0, a));
    }
}

/// Where each node is met after the innermost open node is closed.
proof fn lemma_close_member(
    n: Seq<SyntaxNode>,
    e0: Seq<usize>,
    o0: Seq<usize>,
    len: usize,
    c: int,
)
    requires
        len == n.len(),
        partly_laid(n, e0, o0),
        linked(n, e0, o0),
        o0.len() > 0,
        0 <= c < n.len(),
    ensures
        match n[c].parent {
            Some(p) => if e0.update(o0.last() as int, len)[p as int] != 0 {
                children_from(
                    e0.update(o0.last() as int, len),
                    p as int + 1,
                    e0.update(o0.last() as int, len)[p as int] as int,
                ).contains(c)
            } else {
                exists|a: int|
                    0 <= a < o0.drop_last().len() && #[trigger] o0.drop_last()[a] == p && (
                    children_from(
                        e0.update(o0.last() as int, len),
                        p as int + 1,
                        reach(e0.update(o0.last() as int, len), o0.drop_last(), a),
                    ).contains(c) || (a + 1 < o0.drop_last().len() && o0.drop_last()[a + 1] == c))
            },
            None => true,
        },
{
    let cur = o0.last();
    let e1 = e0.update(cur as int, len);
    let o1 = o0.drop_last();
    let k = o0.len() as int;
    assert(cur == o0[k - 1]);
    assert(cur < e0.len());
    match n[c].parent {
        Some(p) => {
            assert(p < c);
            if e0[p as int] != 0 {
                assert(e0[p as int] <= e0.len());
                if p < cur {
                    assert(e0[p as int] <= o0[k - 1]);
                }
                lemma_walk_frame(e0, e1, p as int + 1, e0[p as int] as int);
                assert(e1[p as int] == e0[p as int]);
            } else {
                let a = choose|a: int|
                    0 <= a < o0.len() && #[trigger] o0[a] == p && (children_from(
                        e0,
                        p as int + 1,
                        reach(e0, o0, a),
                    ).contains(c) || (a + 1 < o0.len() && o0[a + 1] == c));
                if a == k - 1 {
                    assert(p == cur);
                    assert(reach(e0, o0, a) == len);
                    lemma_walk_frame(e0, e1, cur as int + 1, len as int);
                    assert(e1[p as int] == len);
                } else {
                    assert(o0[a] < o0[k - 1]);
                    assert(o1[a] == p);
                    assert(e1[p as int] == 0);
                    lemma_close_open(n, e0, o0, len, a);
                    if a == k - 2 {
                        assert(reach(e0, o0, a) == cur);
                        assert(reach(e1, o1, a) == len);
                        let old_list = children_from(e0, p as int + 1, cur as int);
                        let new_list = children_from(e1, p as int + 1, len as int);
                        assert(new_list == old_list.push(cur as int));
                        if old_list.contains(c) {
                            let x = choose|x: int| 0 <= x < old_list.len() && old_list[x] == c;
                            assert(new_list[x] == c);
                        } else {
                            assert(o0[a + 1] == c);
                            assert(new_list[old_list.len() as int] == c);
                        }
                    } else {
                        assert(o0[a + 1] < o0[k - 1]);
                        assert(reach(e1, o1, a) == reach(e0, o0, a));
                        assert(reach(e0, o0, a) == o0[a + 1]);
                        assert(a + 1 < o1.len() && o1[a + 1] == o0[a + 1]);
                    }
                }
            }
        },
        None => {},
    }
}

/// Parents and children after the innermost open node is closed.
proof fn lemma_close_linked(n: Seq<SyntaxNode>, e0: Seq<usize>, o0: Seq<usize>, len: usize)
    requires
        len == n.len(),
        partly_laid(n, e0, o0),
        linked(n, e0, o0),
        o0.len() > 0,
    ensures
        linked(n, e0.update(o0.last() as int, len), o0.drop_last()),
{
    let cur = o0.last();
    let e1 = e0.update(cur as int, len);
    let o1 = o0.drop_last();
    let k = o0.len() as int;
    assert(cur == o0[k - 1]);
    lemma_close_closed(n, e0, o0, len);
    assert forall|a: int| 0 <= a < o1.len() implies covers(
        e1,
        #[trigger] o1[a] as int + 1,
        reach(e1, o1, a),
    ) && children_named(n, e1, o1[a] as int, reach(e1, o1, a)) by {
        assert(o1[a] == o0[a]);
        lemma_close_open(n, e0, o0, len, a);
    }
    assert forall|c: int| 0 <= c < n.len() implies match (#[trigger] n[c]).parent {
        Some(p) => if e1[p as int] != 0 {
            children_from(e1, p as int + 1, e1[p as int] as int).contains(c)
        } else {
            exists|a: int|
                0 <= a < o1.len() && #[trigger] o1[a] == p && (children_from(
                    e1,
                    p as int + 1,
                    reach(e1, o1, a),
                ).contains(c) || (a + 1 < o1.len() && o1[a + 1] == c))
        },
        None => true,
    } by {
        lemma_close_member(n, e0, o0, len, c);
    }
    assert forall|a: int| 0 <= a < o1.len() - 1 implies (#[trigger] n[o1[a + 1] as int]).parent
        == Some(o1[a]) by {
        assert(n[o0[a + 1] as int].parent == Some(o0[a]));
    }
    assert forall|j: int, a: int|
        0 <= j < e1.len() && e1[j] != 0 && 0 <= a < o1.len() && j < o1[a] implies #[trigger] e1[j]
        <= #[trigger] o1[a] by {
        assert(o1[a] == o0[a]);
        assert(o0[a] < o0[k - 1]);
        assert(o0[a] < e0.len());
        assert(e0[j] <= o0[a]);
    }
}

/// Closes the innermost open node: its subtree ends where the copy
/// stands.
fn close_top(nodes: &Vec<SyntaxNode>, ends: &mut Vec<usize>, open: &mut Vec<usize>)
    requires
        partly_laid(nodes@, old(ends)@, old(open)@),
        linked(nodes@, old(ends)@, old(open)@),
        old(open).len() > 0,
    ensures
        partly_laid(nodes@, final(ends)@, final(open)@),
        linked(nodes@, final(ends)@, final(open)@),
        final(open)@ == old(open)@.drop_last(),
        final(ends)@ == old(ends)@.update(old(open)@.last() as int, nodes.len()),
{
    proof {
        lemma_close_partly(nodes@, ends@, open@, nodes.len());
        lemma_close_linked(nodes@, ends@, open@, nodes.len());
    }
    let ghost o0 = open@;
    let cur = open.pop().unwrap();
    let len = nodes.len();
    proof {
        assert(cur == o0.last());
        assert(open@ =~= o0.drop_last());
    }
    ends.set(cur, len);
}

/// The line of a row: rows count from 0, lines from 1. The last row
/// that a machine integer can hold keeps its number.
pub open spec fn line_spec(row: usize) -> usize {
    if row < usize::MAX {
        (row + 1) as usize
    } else {
        row
    }
}

/// The line of a row.
fn line_of(row: usize) -> (line: usize)
    ensures
        line == line_spec(row),
{
    if row < usize::MAX {
        row + 1
    } else {
        row
    }
}

/// The node that stands for a parsed node: its lines count from 1.
pub open spec fn node_of(p: ParsedNode) -> NodeModel {
    NodeModel {
        kind: p.kind,
        named: p.named,
        field: p.field,
        start_byte: p.start_byte,
        end_byte: p.end_byte,
        start_line: line_spec(p.start_row),
        end_line: line_spec(p.end_row),
        parent: p.parent,
    }
}

/// The nodes that stand for parsed nodes.
pub open spec fn nodes_of(ps: Seq<ParsedNode>) -> Seq<NodeModel> {
    Seq::new(ps.len(), |i: int| node_of(ps[i]))
}

/// The tree that parsing `source` with `grammar` gives.
pub open spec fn parsed_model(grammar: Grammar, source: Seq<u8>) -> TreeModel {
    TreeModel { nodes: nodes_of(parsed_nodes(grammar, source)), ends: parsed_ends(grammar, source) }
}

/// What the copy holds so far of the parsed tree: the first nodes of
/// the tree, the extents of those whose subtree is copied, and a chain
/// of open nodes that starts at the root and nests.
spec fn copied(
    nodes: Seq<SyntaxNode>,
    ends: Seq<usize>,
    open: Seq<usize>,
    mn: Seq<ParsedNode>,
    me: Seq<usize>,
) -> bool {
    &&& nodes.len() <= mn.len()
    &&& forall|j: int| 0 <= j < nodes.len() ==> (#[trigger] nodes[j]).deep_view() == node_of(mn[j])
    &&& forall|j: int| 0 <= j < ends.len() && ends[j] != 0 ==> #[trigger] ends[j] == me[j]
    &&& open.len() > 0 ==> open[0] == 0
    &&& forall|a: int, b: int|
        0 <= a < b < open.len() ==> me[#[trigger] open[b] as int] <= me[#[trigger] open[a] as int]
}

/// Where the copy stands when the cursor is on a node that is not
/// copied yet: on the next node in document order, a child of the
/// innermost open node and inside every open subtree.
spec fn at_next(
    nodes: Seq<SyntaxNode>,
    open: Seq<usize>,
    mn: Seq<ParsedNode>,
    me: Seq<usize>,
    index: int,
) -> bool {
    &&& index == nodes.len()
    &&& nodes.len() < mn.len()
    &&& open.len() == 0 ==> nodes.len() == 0
    &&& open.len() > 0 ==> mn[index].parent == Some(open.last())
    &&& forall|a: int| 0 <= a < open.len() ==> index < me[#[trigger] open[a] as int]
}

/// Closes the node that the cursor stands on, whose subtree is copied,
/// and moves on: to the next sibling of the node, or else up to its
/// parent. Says whether the cursor moved to a node that is not copied
/// yet, and whether the root was closed.
fn step_up<'a>(
    cursor: &mut tree_sitter::TreeCursor<'a>,
    nodes: &Vec<SyntaxNode>,
    ends: &mut Vec<usize>,
    open: &mut Vec<usize>,
) -> (r: (bool, bool))
    requires
        tree_laid(cursor_nodes(*old(cursor)), cursor_ends(*old(cursor))),
        partly_laid(nodes@, old(ends)@, old(open)@),
        linked(nodes@, old(ends)@, old(open)@),
        copied(
            nodes@,
            old(ends)@,
            old(open)@,
            cursor_nodes(*old(cursor)),
            cursor_ends(*old(cursor)),
        ),
        old(open).len() > 0,
        cursor_index(*old(cursor)) == old(open)@.last(),
        cursor_ends(*old(cursor))[old(open)@.last() as int] == nodes.len(),
    ensures
        cursor_nodes(*final(cursor)) == cursor_nodes(*old(cursor)),
        cursor_ends(*final(cursor)) == cursor_ends(*old(cursor)),
        partly_laid(nodes@, final(ends)@, final(open)@),
        linked(nodes@, final(ends)@, final(open)@),
        copied(
            nodes@,
            final(ends)@,
            final(open)@,
            cursor_nodes(*old(cursor)),
            cursor_ends(*old(cursor)),
        ),
        final(open).len() < old(open).len(),
        r.0 ==> !r.1 && at_next(
            nodes@,
            final(open)@,
            cursor_nodes(*old(cursor)),
            cursor_ends(*old(cursor)),
            cursor_index(*final(cursor)),
        ),
        r.1 ==> final(open).len() == 0 && nodes.len() == cursor_nodes(*old(cursor)).len(),
        !r.0 && !r.1 ==> final(open).len() > 0 && cursor_index(*final(cursor)) == final(open)@.last()
            && cursor_ends(*old(cursor))[final(open)@.last() as int] == nodes.len(),
{
    let ghost mn = cursor_nodes(*cursor);
    let ghost me = cursor_ends(*cursor);
    let ghost chain = open@;
    let ghost held = ends@;
    let ghost cur = open@.last() as int;
    proof {
        assert(chain[chain.len() - 1] == cur);
        if chain.len() > 1 {
            assert(nodes@[chain[chain.len() - 2 + 1] as int].parent == Some(chain[chain.len() - 2]));
            assert(nodes@[cur].deep_view() == node_of(mn[cur]));
        }
    }
    close_top(nodes, ends, open);
    proof {
        lemma_closed_copy(nodes@, held, chain, mn, me);
    }
    if open.len() == 0 {
        return (false, true);
    }
    proof {
        assert(open@.last() == chain[chain.len() - 2]);
        assert(me[chain[chain.len() - 1] as int] <= me[chain[chain.len() - 2] as int]);
    }
    if cursor_goto_next_sibling(cursor) {
        proof {
            let next = cursor_index(*cursor);
            assert forall|a: int| 0 <= a < open.len() implies next < me[#[trigger] open@[a] as int] by {
                if a < open.len() - 1 {
                    assert(me[open@[open.len() - 1] as int] <= me[open@[a] as int]);
                }
            }
        }
        (true, false)
    } else {
        cursor_goto_parent(cursor);
        (false, false)
    }
}

/// Closing the innermost open node, whose subtree is copied, keeps what
/// the copy holds.
proof fn lemma_closed_copy(
    nodes: Seq<SyntaxNode>,
    held: Seq<usize>,
    chain: Seq<usize>,
    mn: Seq<ParsedNode>,
    me: Seq<usize>,
)
    requires
        copied(nodes, held, chain, mn, me),
        chain.len() > 0,
        0 <= chain.last() < held.len(),
        me[chain.last() as int] == nodes.len(),
        nodes.len() > 0,
    ensures
        copied(nodes, held.update(chain.last() as int, nodes.len() as usize), chain.drop_last(), mn, me),
{
    let ends = held.update(chain.last() as int, nodes.len() as usize);
    let open = chain.drop_last();
    let cur = chain.last() as int;
    assert forall|j: int| 0 <= j < ends.len() && ends[j] != 0 implies #[trigger] ends[j] == me[j] by {
        if j != cur {
            assert(ends[j] == held[j]);
        }
    }
    assert forall|a: int, b: int| 0 <= a < b < open.len() implies me[#[trigger] open[b] as int]
        <= me[#[trigger] open[a] as int] by {
        assert(open[a] == chain[a] && open[b] == chain[b]);
    }
    if open.len() > 0 {
        assert(open[0] == chain[0]);
    }
}

/// Copies the tree under `cursor`, which stands on its root, node by
/// node in document order.
fn copy_tree<'a>(cursor: &mut tree_sitter::TreeCursor<'a>) -> (t: SyntaxTree)
    requires
        tree_laid(cursor_nodes(*old(cursor)), cursor_ends(*old(cursor))),
        cursor_index(*old(cursor)) == 0,
    ensures
        t.wf(),
        t.node_models() == nodes_of(cursor_nodes(*old(cursor))),
        t.ends() == cursor_ends(*old(cursor)),
{
    let ghost mn = cursor_nodes(*cursor);
    let ghost me = cursor_ends(*cursor);
    let mut nodes: Vec<SyntaxNode> = Vec::new();
    let mut ends: Vec<usize> = Vec::new();
    let mut open: Vec<usize> = Vec::new();
    let mut done = false;
    while !done
        invariant
            tree_laid(mn, me),
            cursor_nodes(*cursor) == mn,
            cursor_ends(*cursor) == me,
            partly_laid(nodes@, ends@, open@),
            linked(nodes@, ends@, open@),
            copied(nodes@, ends@, open@, mn, me),
            !done ==> at_next(nodes@, open@, mn, me, cursor_index(*cursor)),
            done ==> open.len() == 0 && nodes.len() == mn.len(),
        decreases mn.len() - nodes.len(),
    {
        let ghost at = nodes.len() as int;
        let ghost before = open@;
        let node = cursor_node(cursor);
        let parent: Option<usize> = if open.len() > 0 {
            Some(open[open.len() - 1])
        } else {
            None
        };
        let copy = SyntaxNode {
            kind: node_kind(&node),
            named: node_is_named(&node),
            field: cursor_field_name(cursor),
            start_byte: node_start_byte(&node),
            end_byte: node_end_byte(&node),
            start_line: line_of(node_start_row(&node)),
            end_line: line_of(node_end_row(&node)),
            parent,
        };
        proof {
            assert(copy.deep_view() == node_of(mn[at]));
        }
        open_node(&mut nodes, &mut ends, &mut open, copy);
        proof {
            assert(open@.last() == at);
            assert forall|a: int, b: int| 0 <= a < b < open.len() implies me[#[trigger] open@[b] as int]
                <= me[#[trigger] open@[a] as int] by {
                if b == open.len() - 1 {
                    assert(open@[a] == before[a]);
                    if a < before.len() - 1 {
                        assert(me[before[before.len() - 1] as int] <= me[before[a] as int]);
                    }
                } else {
                    assert(open@[a] == before[a] && open@[b] == before[b]);
                }
            }
            assert(copied(nodes@, ends@, open@, mn, me));
        }
        let descended = cursor_goto_first_child(cursor);
        proof {
            if descended {
                assert forall|a: int| 0 <= a < open.len() implies at + 1 < me[#[trigger] open@[
                    a
                ] as int] by {
                    if a < open.len() - 1 {
                        assert(me[open@[open.len() - 1] as int] <= me[open@[a] as int]);
                    }
                }
                assert(at_next(nodes@, open@, mn, me, cursor_index(*cursor)));
            }
        }
        if !descended {
            let mut moved = false;
            while !moved && !done
                invariant
                    tree_laid(mn, me),
                    cursor_nodes(*cursor) == mn,
                    cursor_ends(*cursor) == me,
                    partly_laid(nodes@, ends@, open@),
                    linked(nodes@, ends@, open@),
                    copied(nodes@, ends@, open@, mn, me),
                    nodes.len() == at + 1,
                    !moved && !done ==> open.len() > 0 && cursor_index(*cursor) == open@.last()
                        && me[open@.last() as int] == nodes.len(),
                    moved ==> !done && at_next(nodes@, open@, mn, me, cursor_index(*cursor)),
                    done ==> open.len() == 0 && nodes.len() == mn.len(),
                decreases open.len() + if moved || done {
                    0int
                } else {
                    1int
                },
            {
                let step = step_up(cursor, &nodes, &mut ends, &mut open);
                moved = step.0;
                done = step.1;
            }
        }
    }
    proof {
        assert(open@ =~= Seq::<usize>::empty());
        lemma_all_closed(nodes@, ends@);
        assert forall|j: int| 0 <= j < ends.len() implies ends@[j] == me[j] by {
            if ends@[j] == 0 {
                assert(open@.contains(j as usize));
            }
        }
        assert(ends@ =~= me);
    }
    let t = SyntaxTree::from_parts(nodes, ends);
    proof {
        assert(t.node_models() =~= nodes_of(mn));
    }
    t
}

/// The copy of what the parser gave: a tree exactly where the parser
/// gave one, with the nodes and extents of the parsed tree.
pub fn tree_of(parsed: Option<tree_sitter::Tree>) -> (r: Option<SyntaxTree>)
    ensures
        r.is_some() == parsed.is_some(),
        match r {
            Some(t) => t.wf() && t.size() >= 1 && t.node_models() == nodes_of(
                tree_nodes(parsed.unwrap()),
            ) && t.ends() == tree_ends(parsed.unwrap()),
            None => true,
        },
{
    match parsed {
        Some(tree) => {
            let mut cursor = tree_walk(&tree);
            Some(copy_tree(&mut cursor))
        },
        None => None,
    }
}

/// Parses `source` with `grammar` and copies the result. There is
/// always a tree: the parser accepts every grammar of this library and
/// gives a tree for every text. The tree holds the nodes and extents
/// that the parser gives for the grammar and the text.
pub fn parse_with(grammar: Grammar, source: &[u8]) -> (r: Option<SyntaxTree>)
    ensures
        match r {
            Some(t) => t.wf() && t.size() >= 1 && t@ == parsed_model(grammar, source@),
            None => false,
        },
{
    let mut parser = new_parser();
    select_grammar(&mut parser, grammar);
    tree_of(parser_parse(&mut parser, source))
}

/// Parses a source file of `language` with the grammar of that
/// language. There is always a tree.
pub fn parse_source(language: Language, source: &[u8]) -> (r: Option<SyntaxTree>)
    ensures
        match r {
            Some(t) => t.wf() && t.size() >= 1 && t@ == parsed_model(
                grammar_of_spec(language),
                source@,
            ),
            None => false,
        },
{
    parse_with(grammar_of(language), source)
}

} // verus!
