//! A parse tree held as plain values: the nodes in document order, each
//! with its kind, its place in the source and the extent of its subtree.

use crate::text::str_eq;
use vstd::prelude::*;
use vstd::slice::slice_subrange;
use vstd::utf8::{decode_utf8, encode_utf8, valid_utf8};

verus! {

/// One node of a parse tree.
#[derive(Debug)]
pub struct SyntaxNode {
    /// The grammar's name for this kind of node.
    pub kind: String,
    /// Whether the node is a named node of the grammar.
    pub named: bool,
    /// The field name under which the parent holds this node, if any.
    pub field: Option<String>,
    pub start_byte: usize,
    pub end_byte: usize,
    /// The first line of the node, counted from 1.
    pub start_line: usize,
    /// The last line of the node, counted from 1.
    pub end_line: usize,
    /// The index of the parent; the root has none.
    pub parent: Option<usize>,
}

/// A node as a mathematical value.
pub struct NodeModel {
    pub kind: Seq<char>,
    pub named: bool,
    pub field: Option<Seq<char>>,
    pub start_byte: usize,
    pub end_byte: usize,
    pub start_line: usize,
    pub end_line: usize,
    pub parent: Option<usize>,
}

impl DeepView for SyntaxNode {
    type V = NodeModel;

    open spec fn deep_view(&self) -> NodeModel {
        NodeModel {
            kind: self.kind@,
            named: self.named,
            field: self.field.deep_view(),
            start_byte: self.start_byte,
            end_byte: self.end_byte,
            start_line: self.start_line,
            end_line: self.end_line,
            parent: self.parent,
        }
    }
}

/// A parse tree. Node 0 is the root; a node is followed by its
/// descendants, and `ends` holds for each node the index just behind the
/// last of them.
#[derive(Debug)]
pub struct SyntaxTree {
    nodes: Vec<SyntaxNode>,
    ends: Vec<usize>,
}

/// The layout rules of a tree: every extent starts behind its node and
/// ends inside the tree, extents nest, a parent precedes its child and
/// spans it, node 0 alone has no parent, and parents and children agree.
pub open spec fn well_laid(nodes: Seq<SyntaxNode>, ends: Seq<usize>) -> bool {
    &&& nodes.len() == ends.len()
    &&& forall|i: int| 0 <= i < ends.len() ==> i < #[trigger] ends[i] <= ends.len()
    &&& forall|i: int, j: int|
        0 <= i < j < ends.len() && j < ends[i] ==> #[trigger] ends[j] <= #[trigger] ends[i]
    &&& forall|i: int|
        0 <= i < nodes.len() ==> match (#[trigger] nodes[i]).parent {
            Some(p) => p < i && i < ends[p as int],
            None => i == 0,
        }
    &&& kinship(nodes, ends)
}

/// Parents and children agree: the children of a node are the nodes
/// that name it as their parent.
#[verifier::opaque]
pub open spec fn kinship(nodes: Seq<SyntaxNode>, ends: Seq<usize>) -> bool {
    &&& forall|p: int|
        0 <= p < nodes.len() ==> children_named(nodes, ends, p, #[trigger] ends[p] as int)
    &&& forall|c: int|
        0 <= c < nodes.len() ==> match (#[trigger] nodes[c]).parent {
            Some(p) => children_from(ends, p as int + 1, ends[p as int] as int).contains(c),
            None => true,
        }
}

/// Whether every node that the walk from `p + 1` up to `to` meets names
/// `p` as its parent.
pub open spec fn children_named(nodes: Seq<SyntaxNode>, ends: Seq<usize>, p: int, to: int) -> bool {
    forall|k: int|
        0 <= k < children_from(ends, p + 1, to).len() ==> 0 <= #[trigger] children_from(
            ends,
            p + 1,
            to,
        )[k] < nodes.len() && nodes[children_from(ends, p + 1, to)[k]].parent == Some(p as usize)
}

/// The children among the nodes from `c` on, up to `end`: `c` itself,
/// then the node behind the subtree of `c`, and so on.
pub open spec fn children_from(ends: Seq<usize>, c: int, end: int) -> Seq<int>
    decreases end - c,
{
    if 0 <= c < end && c < ends.len() && c < ends[c] <= end {
        seq![c] + children_from(ends, ends[c] as int, end)
    } else {
        Seq::empty()
    }
}

/// The nodes that a walk meets lie inside its range.
pub proof fn lemma_walk_bounds(ends: Seq<usize>, from: int, to: int, k: int)
    requires
        0 <= k < children_from(ends, from, to).len(),
    ensures
        from <= children_from(ends, from, to)[k] < to,
    decreases to - from,
{
    if 0 <= from < to && from < ends.len() && from < ends[from] <= to {
        if k > 0 {
            lemma_walk_bounds(ends, ends[from] as int, to, k - 1);
        }
    }
}

/// Every extent starts behind its node and ends inside the tree.
pub open spec fn extents_inside(ends: Seq<usize>) -> bool {
    forall|i: int| 0 <= i < ends.len() ==> i < #[trigger] ends[i] <= ends.len()
}

/// Extents nest: a node inside the subtree of another has its own
/// subtree inside it.
pub open spec fn extents_nest(ends: Seq<usize>) -> bool {
    forall|i: int, j: int|
        0 <= i < j < ends.len() && j < ends[i] ==> #[trigger] ends[j] <= #[trigger] ends[i]
}

/// A parent precedes its child and spans it, and node 0 alone has no
/// parent.
pub open spec fn parents_span(nodes: Seq<SyntaxNode>, ends: Seq<usize>) -> bool {
    forall|i: int|
        0 <= i < nodes.len() ==> match (#[trigger] nodes[i]).parent {
            Some(p) => p < i && i < ends[p as int],
            None => i == 0,
        }
}

/// Every child names its parent.
pub open spec fn children_name_parents(nodes: Seq<SyntaxNode>, ends: Seq<usize>) -> bool {
    forall|p: int|
        0 <= p < nodes.len() ==> children_named(nodes, ends, p, #[trigger] ends[p] as int)
}

/// Every node with a parent is among the children of that parent.
pub open spec fn parents_hold_children(nodes: Seq<SyntaxNode>, ends: Seq<usize>) -> bool {
    forall|c: int|
        0 <= c < nodes.len() ==> match (#[trigger] nodes[c]).parent {
            Some(p) => children_from(ends, p as int + 1, ends[p as int] as int).contains(c),
            None => true,
        }
}

/// Tests whether every extent starts behind its node and ends inside
/// the tree.
fn check_inside(ends: &Vec<usize>) -> (r: bool)
    ensures
        r == extents_inside(ends@),
{
    let n = ends.len();
    let mut i: usize = 0;
    while i < n
        invariant
            i <= n,
            n == ends.len(),
            forall|k: int| 0 <= k < i ==> k < #[trigger] ends@[k] <= n,
        decreases n - i,
    {
        if !(i < ends[i] && ends[i] <= n) {
            proof {
                assert(!(i < ends@[i as int] <= ends@.len()));
            }
            return false;
        }
        i += 1;
    }
    true
}

/// Tests whether extents nest.
fn check_nest(ends: &Vec<usize>) -> (r: bool)
    requires
        extents_inside(ends@),
    ensures
        r == extents_nest(ends@),
{
    let n = ends.len();
    let mut i: usize = 0;
    while i < n
        invariant
            i <= n,
            n == ends.len(),
            extents_inside(ends@),
            forall|a: int, b: int|
                0 <= a < i && a < b < n && b < ends@[a] ==> #[trigger] ends@[b] <= #[trigger] ends@[a],
        decreases n - i,
    {
        let end = ends[i];
        let mut j: usize = i + 1;
        while j < end
            invariant
                i < j <= end,
                i < n,
                n == ends.len(),
                end == ends@[i as int],
                end <= n,
                forall|b: int| i < b < j ==> #[trigger] ends@[b] <= end,
            decreases end - j,
        {
            if ends[j] > end {
                proof {
                    assert(!(ends@[j as int] <= ends@[i as int]));
                }
                return false;
            }
            j += 1;
        }
        i += 1;
    }
    true
}

/// Tests whether parents precede and span their children.
fn check_parents(nodes: &Vec<SyntaxNode>, ends: &Vec<usize>) -> (r: bool)
    requires
        nodes.len() == ends.len(),
    ensures
        r == parents_span(nodes@, ends@),
{
    let n = nodes.len();
    let mut i: usize = 0;
    while i < n
        invariant
            i <= n,
            n == nodes.len(),
            n == ends.len(),
            forall|k: int|
                0 <= k < i ==> match (#[trigger] nodes@[k]).parent {
                    Some(p) => p < k && k < ends@[p as int],
                    None => k == 0,
                },
        decreases n - i,
    {
        let ok = match nodes[i].parent {
            Some(p) => p < i && i < ends[p],
            None => i == 0,
        };
        if !ok {
            proof {
                assert(!match nodes@[i as int].parent {
                    Some(p) => p < i && i < ends@[p as int],
                    None => i == 0,
                });
            }
            return false;
        }
        i += 1;
    }
    true
}

/// Tests whether every child names its parent.
fn check_named(nodes: &Vec<SyntaxNode>, ends: &Vec<usize>) -> (r: bool)
    requires
        nodes.len() == ends.len(),
        extents_inside(ends@),
        extents_nest(ends@),
    ensures
        r == children_name_parents(nodes@, ends@),
{
    let n = nodes.len();
    let mut p: usize = 0;
    while p < n
        invariant
            p <= n,
            n == nodes.len(),
            n == ends.len(),
            extents_inside(ends@),
            extents_nest(ends@),
            forall|q: int| 0 <= q < p ==> children_named(nodes@, ends@, q, #[trigger] ends@[q] as int),
        decreases n - p,
    {
        let end = ends[p];
        let mut c: usize = p + 1;
        let ghost list = children_from(ends@, p as int + 1, end as int);
        let ghost mut seen: Seq<int> = Seq::empty();
        proof {
            assert(list =~= seen + list);
        }
        while c < end
            invariant
                p < c <= end,
                p < n,
                n == nodes.len(),
                n == ends.len(),
                end == ends@[p as int],
                end <= n,
                extents_inside(ends@),
                extents_nest(ends@),
                list == children_from(ends@, p as int + 1, end as int),
                list == seen + children_from(ends@, c as int, end as int),
                forall|k: int|
                    0 <= k < seen.len() ==> 0 <= #[trigger] seen[k] < n && nodes@[seen[k]].parent
                        == Some(p),
            decreases end - c,
        {
            proof {
                assert(ends@[c as int] <= ends@[p as int]);
                assert(children_from(ends@, c as int, end as int) =~= seq![c as int]
                    + children_from(ends@, ends@[c as int] as int, end as int));
                assert(list[seen.len() as int] == c);
            }
            let named = match nodes[c].parent {
                Some(q) => q == p,
                None => false,
            };
            if !named {
                proof {
                    assert(nodes@[list[seen.len() as int]].parent != Some(p));
                    assert(!children_named(nodes@, ends@, p as int, ends@[p as int] as int));
                }
                return false;
            }
            proof {
                seen = seen.push(c as int);
                assert(list =~= seen + children_from(ends@, ends@[c as int] as int, end as int));
            }
            c = ends[c];
        }
        proof {
            assert(children_from(ends@, c as int, end as int) =~= Seq::<int>::empty());
            assert(list =~= seen);
        }
        p += 1;
    }
    true
}

/// Tests whether node `c` is among the children of node `p`.
fn is_child(ends: &Vec<usize>, p: usize, c: usize) -> (r: bool)
    requires
        p < ends.len(),
        extents_inside(ends@),
        extents_nest(ends@),
    ensures
        r == children_from(ends@, p as int + 1, ends@[p as int] as int).contains(c as int),
{
    let end = ends[p];
    let mut k: usize = p + 1;
    let ghost list = children_from(ends@, p as int + 1, end as int);
    let ghost mut seen: Seq<int> = Seq::empty();
    proof {
        assert(list =~= seen + list);
    }
    while k < end && k < c
        invariant
            p < k <= end,
            end == ends@[p as int],
            end <= ends.len(),
            extents_inside(ends@),
            extents_nest(ends@),
            list == children_from(ends@, p as int + 1, end as int),
            list == seen + children_from(ends@, k as int, end as int),
            forall|x: int| 0 <= x < seen.len() ==> #[trigger] seen[x] < c,
        decreases end - k,
    {
        proof {
            assert(ends@[k as int] <= ends@[p as int]);
            assert(children_from(ends@, k as int, end as int) =~= seq![k as int] + children_from(
                ends@,
                ends@[k as int] as int,
                end as int,
            ));
            seen = seen.push(k as int);
            assert(list =~= seen + children_from(ends@, ends@[k as int] as int, end as int));
        }
        k = ends[k];
    }
    let found = k < end && k == c;
    proof {
        let rest = children_from(ends@, k as int, end as int);
        if found {
            assert(ends@[k as int] <= ends@[p as int]);
            assert(rest =~= seq![k as int] + children_from(
                ends@,
                ends@[k as int] as int,
                end as int,
            ));
            assert(list[seen.len() as int] == c);
        } else if list.contains(c as int) {
            let x = choose|x: int| 0 <= x < list.len() && list[x] == c as int;
            if x < seen.len() {
                assert(list[x] == seen[x]);
            } else {
                assert(list[x] == rest[x - seen.len()]);
                lemma_walk_bounds(ends@, k as int, end as int, x - seen.len());
            }
        }
    }
    found
}

/// Tests whether every node with a parent is among the children of
/// that parent.
fn check_members(nodes: &Vec<SyntaxNode>, ends: &Vec<usize>) -> (r: bool)
    requires
        nodes.len() == ends.len(),
        extents_inside(ends@),
        extents_nest(ends@),
        parents_span(nodes@, ends@),
    ensures
        r == parents_hold_children(nodes@, ends@),
{
    let n = nodes.len();
    let mut c: usize = 0;
    while c < n
        invariant
            c <= n,
            n == nodes.len(),
            n == ends.len(),
            extents_inside(ends@),
            extents_nest(ends@),
            parents_span(nodes@, ends@),
            forall|k: int|
                0 <= k < c ==> match (#[trigger] nodes@[k]).parent {
                    Some(p) => children_from(ends@, p as int + 1, ends@[p as int] as int).contains(
                        k,
                    ),
                    None => true,
                },
        decreases n - c,
    {
        let held = match nodes[c].parent {
            Some(p) => is_child(ends, p, c),
            None => true,
        };
        if !held {
            proof {
                assert(!match nodes@[c as int].parent {
                    Some(p) => children_from(ends@, p as int + 1, ends@[p as int] as int).contains(
                        c as int,
                    ),
                    None => true,
                });
            }
            return false;
        }
        c += 1;
    }
    true
}

/// Indices as mathematical integers.
pub open spec fn ints(v: Seq<usize>) -> Seq<int> {
    Seq::new(v.len(), |k: int| v[k] as int)
}

/// The text that a byte range of `source` holds: its characters where
/// the range lies inside `source` and is valid UTF-8, nothing otherwise.
pub open spec fn range_text(source: Seq<u8>, start: int, end: int) -> Seq<char> {
    if 0 <= start <= end <= source.len() && valid_utf8(source.subrange(start, end)) {
        decode_utf8(source.subrange(start, end))
    } else {
        Seq::empty()
    }
}

/// Decodes bytes as UTF-8. Trusted: `String::from_utf8` fails exactly on
/// bytes that are not valid UTF-8, and otherwise returns the string whose
/// encoding those bytes are.
#[verifier::external_body]
pub(crate) fn utf8_to_string(bytes: &[u8]) -> (r: Option<String>)
    ensures
        match r {
            Some(s) => encode_utf8(s@) == bytes@,
            None => !valid_utf8(bytes@),
        },
{
    String::from_utf8(bytes.to_vec()).ok()
}

/// A parse tree as a mathematical value: its nodes in document order,
/// and for each node the index just behind its last descendant.
pub struct TreeModel {
    pub nodes: Seq<NodeModel>,
    pub ends: Seq<usize>,
}

impl TreeModel {
    /// The nodes, in document order.
    pub open spec fn nodes(self) -> Seq<NodeModel> {
        self.nodes
    }

    /// For each node, the index just behind its last descendant.
    pub open spec fn ends(self) -> Seq<usize> {
        self.ends
    }

    /// The number of nodes.
    pub open spec fn size(self) -> int {
        self.nodes.len() as int
    }

    /// The kind of node `i`.
    pub open spec fn kind(self, i: int) -> Seq<char> {
        self.nodes[i].kind
    }

    /// The children of node `i`, in document order.
    pub open spec fn children(self, i: int) -> Seq<int> {
        children_from(self.ends, i + 1, self.ends[i] as int)
    }

    /// The first node of `list` of kind `kind`.
    pub open spec fn first_of_kind(self, list: Seq<int>, kind: Seq<char>) -> Option<int>
        decreases list.len(),
    {
        if list.len() == 0 {
            None
        } else if self.kind(list[0]) == kind {
            Some(list[0])
        } else {
            self.first_of_kind(list.drop_first(), kind)
        }
    }

    /// The first node of `list` held under the field `name`.
    pub open spec fn first_with_field(self, list: Seq<int>, name: Seq<char>) -> Option<int>
        decreases list.len(),
    {
        if list.len() == 0 {
            None
        } else if self.nodes[list[0]].field == Some(name) {
            Some(list[0])
        } else {
            self.first_with_field(list.drop_first(), name)
        }
    }

    /// The first named node of `list`.
    pub open spec fn first_named(self, list: Seq<int>) -> Option<int>
        decreases list.len(),
    {
        if list.len() == 0 {
            None
        } else if self.nodes[list[0]].named {
            Some(list[0])
        } else {
            self.first_named(list.drop_first())
        }
    }

    /// The first child of `i` of kind `kind`.
    pub open spec fn child_of_kind(self, i: int, kind: Seq<char>) -> Option<int> {
        self.first_of_kind(self.children(i), kind)
    }

    /// The first child of `i` held under the field `name`.
    pub open spec fn child_by_field(self, i: int, name: Seq<char>) -> Option<int> {
        self.first_with_field(self.children(i), name)
    }

    /// The first named child of `i`.
    pub open spec fn named_child(self, i: int) -> Option<int> {
        self.first_named(self.children(i))
    }

    /// The children of all nodes of `list`, in order.
    pub open spec fn next_level(self, list: Seq<int>) -> Seq<int>
        decreases list.len(),
    {
        if list.len() == 0 {
            Seq::empty()
        } else {
            self.next_level(list.drop_last()) + self.children(list.last())
        }
    }

    /// The first node of kind `kind` met when the levels below `level`
    /// are searched one after the other, `level` first, at most `depth`
    /// levels deep.
    pub open spec fn find_in_levels(self, level: Seq<int>, kind: Seq<char>, depth: nat) -> Option<
        int,
    >
        decreases depth,
    {
        if depth == 0 || level.len() == 0 {
            None
        } else {
            match self.first_of_kind(level, kind) {
                Some(i) => Some(i),
                None => self.find_in_levels(self.next_level(level), kind, (depth - 1) as nat),
            }
        }
    }

    /// The first proper descendant of `i` of kind `kind`, in
    /// breadth-first order.
    pub open spec fn descendant_of_kind(self, i: int, kind: Seq<char>) -> Option<int> {
        self.find_in_levels(self.children(i), kind, self.nodes.len())
    }

    /// The nearest proper ancestor of `i` of kind `kind`, looking at most
    /// `fuel` nodes up.
    pub open spec fn ancestor_of_kind(self, i: int, kind: Seq<char>, fuel: nat) -> Option<int>
        decreases fuel,
    {
        if fuel == 0 || i < 0 || i >= self.nodes.len() {
            None
        } else {
            match self.nodes[i].parent {
                Some(p) => if self.kind(p as int) == kind {
                    Some(p as int)
                } else {
                    self.ancestor_of_kind(p as int, kind, (fuel - 1) as nat)
                },
                None => None,
            }
        }
    }

    /// The source text of node `i`.
    pub open spec fn text(self, source: Seq<u8>, i: int) -> Seq<char> {
        range_text(source, self.nodes[i].start_byte as int, self.nodes[i].end_byte as int)
    }
}

impl View for SyntaxTree {
    type V = TreeModel;

    open spec fn view(&self) -> TreeModel {
        TreeModel { nodes: self.node_models(), ends: self.ends() }
    }
}

impl DeepView for SyntaxTree {
    type V = TreeModel;

    open spec fn deep_view(&self) -> TreeModel {
        self@
    }
}

impl SyntaxTree {
    #[verifier::type_invariant]
    spec fn inv(self) -> bool {
        well_laid(self.nodes@, self.ends@)
    }

    /// The nodes, in document order.
    pub closed spec fn nodes(self) -> Seq<SyntaxNode> {
        self.nodes@
    }

    /// For each node, the index just behind its last descendant.
    pub closed spec fn ends(self) -> Seq<usize> {
        self.ends@
    }

    /// The nodes as mathematical values, in document order.
    pub open spec fn node_models(self) -> Seq<NodeModel> {
        Seq::new(self.nodes().len(), |i: int| self.nodes()[i].deep_view())
    }

    /// Validity. Every tree that executable code holds is valid.
    pub open spec fn wf(self) -> bool {
        well_laid(self.nodes(), self.ends())
    }

    /// The number of nodes.
    pub open spec fn size(self) -> int {
        self.nodes().len() as int
    }

    /// The kind of node `i`.
    pub open spec fn kind(self, i: int) -> Seq<char> {
        self@.kind(i)
    }

    /// The children of node `i`, in document order.
    pub open spec fn children(self, i: int) -> Seq<int> {
        self@.children(i)
    }

    /// The first node of `list` of kind `kind`.
    pub open spec fn first_of_kind(self, list: Seq<int>, kind: Seq<char>) -> Option<int> {
        self@.first_of_kind(list, kind)
    }

    /// The first node of `list` held under the field `name`.
    pub open spec fn first_with_field(self, list: Seq<int>, name: Seq<char>) -> Option<int> {
        self@.first_with_field(list, name)
    }

    /// The first named node of `list`.
    pub open spec fn first_named(self, list: Seq<int>) -> Option<int> {
        self@.first_named(list)
    }

    /// The first child of `i` of kind `kind`.
    pub open spec fn child_of_kind(self, i: int, kind: Seq<char>) -> Option<int> {
        self@.child_of_kind(i, kind)
    }

    /// The first child of `i` held under the field `name`.
    pub open spec fn child_by_field(self, i: int, name: Seq<char>) -> Option<int> {
        self@.child_by_field(i, name)
    }

    /// The first named child of `i`.
    pub open spec fn named_child(self, i: int) -> Option<int> {
        self@.named_child(i)
    }

    /// The children of all nodes of `list`, in order.
    pub open spec fn next_level(self, list: Seq<int>) -> Seq<int> {
        self@.next_level(list)
    }

    /// The first node of kind `kind` met when the levels below `level`
    /// are searched one after the other, `level` first, at most `depth`
    /// levels deep.
    pub open spec fn find_in_levels(self, level: Seq<int>, kind: Seq<char>, depth: nat) -> Option<int> {
        self@.find_in_levels(level, kind, depth)
    }

    /// The first proper descendant of `i` of kind `kind`, in
    /// breadth-first order.
    pub open spec fn descendant_of_kind(self, i: int, kind: Seq<char>) -> Option<int> {
        self@.descendant_of_kind(i, kind)
    }

    /// The nearest proper ancestor of `i` of kind `kind`, looking at most
    /// `fuel` nodes up.
    pub open spec fn ancestor_of_kind(self, i: int, kind: Seq<char>, fuel: nat) -> Option<int> {
        self@.ancestor_of_kind(i, kind, fuel)
    }

    /// The source text of node `i`.
    pub open spec fn text(self, source: Seq<u8>, i: int) -> Seq<char> {
        self@.text(source, i)
    }

    /// Makes a tree of nodes and extents that are well laid out.
    pub(crate) fn from_parts(nodes: Vec<SyntaxNode>, ends: Vec<usize>) -> (t: Self)
        requires
            well_laid(nodes@, ends@),
        ensures
            t.nodes() == nodes@,
            t.ends() == ends@,
            t.wf(),
    {
        SyntaxTree { nodes, ends }
    }

    /// Makes a tree of nodes and extents, where they are well laid out:
    /// the layout is tested, and there is a tree exactly where it holds.
    pub fn checked(nodes: Vec<SyntaxNode>, ends: Vec<usize>) -> (r: Option<Self>)
        ensures
            r.is_some() == well_laid(nodes@, ends@),
            match r {
                Some(t) => t.nodes() == nodes@ && t.ends() == ends@,
                None => true,
            },
    {
        proof {
            reveal(kinship);
        }
        if nodes.len() == ends.len() && check_inside(&ends) && check_nest(&ends) && check_parents(
            &nodes,
            &ends,
        ) && check_named(&nodes, &ends) && check_members(&nodes, &ends) {
            Some(SyntaxTree::from_parts(nodes, ends))
        } else {
            None
        }
    }

    /// The number of nodes.
    pub fn len(&self) -> (n: usize)
        ensures
            n == self.size(),
            self.wf(),
    {
        proof {
            use_type_invariant(self);
        }
        self.nodes.len()
    }

    /// Node `i`.
    pub fn node(&self, i: usize) -> (n: &SyntaxNode)
        requires
            i < self.size(),
        ensures
            *n == self.nodes()[i as int],
            self.wf(),
    {
        proof {
            use_type_invariant(self);
        }
        &self.nodes[i]
    }

    /// The index just behind the subtree of node `i`.
    pub fn end(&self, i: usize) -> (e: usize)
        requires
            i < self.size(),
        ensures
            e == self.ends()[i as int],
            i < e <= self.size(),
            self.wf(),
    {
        proof {
            use_type_invariant(self);
        }
        self.ends[i]
    }

    /// Whether node `i` is of kind `kind`.
    pub fn kind_is(&self, i: usize, kind: &str) -> (r: bool)
        requires
            i < self.size(),
        ensures
            r == (self.kind(i as int) == kind@),
    {
        str_eq(self.nodes[i].kind.as_str(), kind)
    }

    /// The parent of node `i`: the node that has `i` among its
    /// children; the root alone has none.
    pub fn parent(&self, i: usize) -> (r: Option<usize>)
        requires
            i < self.size(),
        ensures
            r == self.nodes()[i as int].parent,
            match r {
                Some(p) => p < i && self.children(p as int).contains(i as int),
                None => i == 0,
            },
    {
        proof {
            use_type_invariant(self);
            reveal(kinship);
        }
        self.nodes[i].parent
    }

    /// The children of node `i`, in document order.
    pub fn children_of(&self, i: usize) -> (out: Vec<usize>)
        requires
            i < self.size(),
        ensures
            ints(out@) == self.children(i as int),
            forall|k: int| 0 <= k < out.len() ==> i < #[trigger] out@[k] < self.size(),
            forall|k: int|
                0 <= k < out.len() ==> (#[trigger] self.nodes()[out@[k] as int]).parent == Some(i),
    {
        proof {
            use_type_invariant(self);
            reveal(kinship);
            assert(children_named(self.nodes@, self.ends@, i as int, self.ends@[i as int] as int));
        }
        let end = self.ends[i];
        let mut out: Vec<usize> = Vec::new();
        let mut c: usize = i + 1;
        proof {
            assert(ints(out@) =~= Seq::<int>::empty());
        }
        while c < end
            invariant
                well_laid(self.nodes@, self.ends@),
                i < c <= end,
                end == self.ends@[i as int],
                end <= self.nodes@.len(),
                c < end ==> c < self.ends@[i as int],
                self.children(i as int) == ints(out@) + children_from(self.ends@, c as int, end as int),
                forall|k: int| 0 <= k < out.len() ==> i < #[trigger] out@[k] < self.nodes@.len(),
            decreases end - c,
        {
            let ghost before = ints(out@);
            out.push(c);
            proof {
                assert(self.ends@[c as int] <= self.ends@[i as int]);
                assert(ints(out@) =~= before + seq![c as int]);
                assert(children_from(self.ends@, c as int, end as int) =~= seq![c as int]
                    + children_from(self.ends@, self.ends@[c as int] as int, end as int));
            }
            c = self.ends[c];
        }
        proof {
            assert(children_from(self.ends@, c as int, end as int) =~= Seq::<int>::empty());
            assert(ints(out@) =~= self.children(i as int));
            assert forall|k: int| 0 <= k < out.len() implies (#[trigger] self.nodes()[out@[k] as int]).parent
                == Some(i) by {
                assert(ints(out@)[k] == out@[k] as int);
                assert(self.children(i as int)[k] == out@[k] as int);
            }
        }
        out
    }

    /// The first node of `list` of kind `kind`.
    pub fn find_kind_in(&self, list: &Vec<usize>, kind: &str) -> (r: Option<usize>)
        requires
            forall|k: int| 0 <= k < list.len() ==> #[trigger] list@[k] < self.size(),
        ensures
            match r {
                Some(c) => self.first_of_kind(ints(list@), kind@) == Some(c as int) && c
                    < self.size(),
                None => self.first_of_kind(ints(list@), kind@).is_none(),
            },
    {
        let mut k: usize = 0;
        proof {
            assert(ints(list@).skip(0) =~= ints(list@));
        }
        while k < list.len()
            invariant
                k <= list.len(),
                forall|j: int| 0 <= j < list.len() ==> #[trigger] list@[j] < self.size(),
                self.first_of_kind(ints(list@), kind@) == self.first_of_kind(
                    ints(list@).skip(k as int),
                    kind@,
                ),
            decreases list.len() - k,
        {
            proof {
                assert(ints(list@).skip(k as int)[0] == list@[k as int] as int);
                assert(ints(list@).skip(k as int).drop_first() =~= ints(list@).skip(k + 1));
            }
            if self.kind_is(list[k], kind) {
                return Some(list[k]);
            }
            k += 1;
        }
        None
    }

    /// The first child of `i` of kind `kind`.
    pub fn find_child_of_type(&self, i: usize, kind: &str) -> (r: Option<usize>)
        requires
            i < self.size(),
        ensures
            match r {
                Some(c) => self.child_of_kind(i as int, kind@) == Some(c as int) && c
                    < self.size(),
                None => self.child_of_kind(i as int, kind@).is_none(),
            },
    {
        let kids = self.children_of(i);
        self.find_kind_in(&kids, kind)
    }

    /// The first child of `i` held under the field `name`.
    pub fn child_by_field_name(&self, i: usize, name: &str) -> (r: Option<usize>)
        requires
            i < self.size(),
        ensures
            match r {
                Some(c) => self.child_by_field(i as int, name@) == Some(c as int) && c
                    < self.size(),
                None => self.child_by_field(i as int, name@).is_none(),
            },
    {
        let list = self.children_of(i);
        let mut k: usize = 0;
        proof {
            assert(ints(list@).skip(0) =~= ints(list@));
        }
        while k < list.len()
            invariant
                k <= list.len(),
                forall|j: int| 0 <= j < list.len() ==> #[trigger] list@[j] < self.size(),
                ints(list@) == self.children(i as int),
                self.first_with_field(ints(list@), name@) == self.first_with_field(
                    ints(list@).skip(k as int),
                    name@,
                ),
            decreases list.len() - k,
        {
            proof {
                assert(ints(list@).skip(k as int)[0] == list@[k as int] as int);
                assert(ints(list@).skip(k as int).drop_first() =~= ints(list@).skip(k + 1));
            }
            let hit = match &self.nodes[list[k]].field {
                Some(f) => str_eq(f.as_str(), name),
                None => false,
            };
            proof {
                let f = self.nodes()[list@[k as int] as int].field;
                assert(hit == (f.deep_view() == Some(name@))) by {
                    match f {
                        Some(x) => {
                            assert(f.deep_view() == Some(x@));
                        },
                        None => {},
                    }
                }
            }
            if hit {
                return Some(list[k]);
            }
            k += 1;
        }
        None
    }

    /// The first named child of `i`.
    pub fn first_named_child(&self, i: usize) -> (r: Option<usize>)
        requires
            i < self.size(),
        ensures
            match r {
                Some(c) => self.named_child(i as int) == Some(c as int) && c < self.size(),
                None => self.named_child(i as int).is_none(),
            },
    {
        let list = self.children_of(i);
        let mut k: usize = 0;
        proof {
            assert(ints(list@).skip(0) =~= ints(list@));
        }
        while k < list.len()
            invariant
                k <= list.len(),
                forall|j: int| 0 <= j < list.len() ==> #[trigger] list@[j] < self.size(),
                ints(list@) == self.children(i as int),
                self.first_named(ints(list@)) == self.first_named(ints(list@).skip(k as int)),
            decreases list.len() - k,
        {
            proof {
                assert(ints(list@).skip(k as int)[0] == list@[k as int] as int);
                assert(ints(list@).skip(k as int).drop_first() =~= ints(list@).skip(k + 1));
            }
            proof {
                assert(self.nodes()[list@[k as int] as int].named == self.nodes@[list@[
                    k as int
                ] as int].named);
            }
            if self.nodes[list[k]].named {
                return Some(list[k]);
            }
            k += 1;
        }
        None
    }

    /// The children of all nodes of `level`, in order.
    fn level_below(&self, level: &Vec<usize>) -> (out: Vec<usize>)
        requires
            forall|k: int| 0 <= k < level.len() ==> #[trigger] level@[k] < self.size(),
        ensures
            ints(out@) == self.next_level(ints(level@)),
            forall|k: int| 0 <= k < out.len() ==> #[trigger] out@[k] < self.size(),
    {
        let mut out: Vec<usize> = Vec::new();
        let mut k: usize = 0;
        proof {
            assert(ints(level@).take(0) =~= Seq::<int>::empty());
            assert(ints(out@) =~= Seq::<int>::empty());
        }
        while k < level.len()
            invariant
                k <= level.len(),
                forall|j: int| 0 <= j < level.len() ==> #[trigger] level@[j] < self.size(),
                ints(out@) == self.next_level(ints(level@).take(k as int)),
                forall|j: int| 0 <= j < out.len() ==> #[trigger] out@[j] < self.size(),
            decreases level.len() - k,
        {
            let kids = self.children_of(level[k]);
            let ghost before = ints(out@);
            let mut j: usize = 0;
            while j < kids.len()
                invariant
                    j <= kids.len(),
                    ints(out@) == before + ints(kids@).take(j as int),
                    forall|m: int| 0 <= m < kids.len() ==> #[trigger] kids@[m] < self.size(),
                    forall|m: int| 0 <= m < out.len() ==> #[trigger] out@[m] < self.size(),
                decreases kids.len() - j,
            {
                let ghost prev = ints(out@);
                out.push(kids[j]);
                proof {
                    assert(ints(out@) =~= prev.push(kids@[j as int] as int));
                    assert(ints(kids@).take(j + 1) =~= ints(kids@).take(j as int).push(
                        kids@[j as int] as int,
                    ));
                    assert(ints(out@) =~= before + ints(kids@).take(j + 1));
                }
                j += 1;
            }
            proof {
                assert(ints(kids@).take(kids@.len() as int) =~= ints(kids@));
                let next = ints(level@).take(k + 1);
                assert(next.drop_last() =~= ints(level@).take(k as int));
                assert(next.last() == level@[k as int] as int);
            }
            k += 1;
        }
        proof {
            assert(ints(level@).take(level@.len() as int) =~= ints(level@));
        }
        out
    }

    /// The first proper descendant of `i` of kind `kind`, in
    /// breadth-first order.
    pub fn find_descendant_of_type(&self, i: usize, kind: &str) -> (r: Option<usize>)
        requires
            i < self.size(),
        ensures
            match r {
                Some(c) => self.descendant_of_kind(i as int, kind@) == Some(c as int) && c
                    < self.size(),
                None => self.descendant_of_kind(i as int, kind@).is_none(),
            },
    {
        let mut level = self.children_of(i);
        let mut depth: usize = self.nodes.len();
        while depth > 0 && level.len() > 0
            invariant
                forall|k: int| 0 <= k < level.len() ==> #[trigger] level@[k] < self.size(),
                self.descendant_of_kind(i as int, kind@) == self.find_in_levels(
                    ints(level@),
                    kind@,
                    depth as nat,
                ),
            decreases depth,
        {
            match self.find_kind_in(&level, kind) {
                Some(c) => {
                    return Some(c);
                },
                None => {},
            }
            level = self.level_below(&level);
            depth -= 1;
        }
        None
    }

    /// The nearest proper ancestor of `i` of kind `kind`.
    pub fn find_ancestor_of_type(&self, i: usize, kind: &str) -> (r: Option<usize>)
        requires
            i < self.size(),
        ensures
            match r {
                Some(p) => self.ancestor_of_kind(i as int, kind@, self.nodes().len()) == Some(
                    p as int,
                ) && p < self.size(),
                None => self.ancestor_of_kind(i as int, kind@, self.nodes().len()).is_none(),
            },
    {
        proof {
            use_type_invariant(self);
        }
        let mut cur: usize = i;
        let mut fuel: usize = self.nodes.len();
        while fuel > 0
            invariant
                well_laid(self.nodes@, self.ends@),
                cur < self.nodes@.len(),
                self.ancestor_of_kind(i as int, kind@, self.nodes@.len()) == self.ancestor_of_kind(
                    cur as int,
                    kind@,
                    fuel as nat,
                ),
            decreases fuel,
        {
            match self.nodes[cur].parent {
                Some(p) => {
                    if self.kind_is(p, kind) {
                        return Some(p);
                    }
                    cur = p;
                },
                None => {
                    return None;
                },
            }
            fuel -= 1;
        }
        None
    }

    /// The source text of node `i`; empty where its byte range lies
    /// outside `source` or is not valid UTF-8.
    pub fn node_text(&self, source: &[u8], i: usize) -> (out: String)
        requires
            i < self.size(),
        ensures
            out@ == self.text(source@, i as int),
    {
        let start = self.nodes[i].start_byte;
        let end = self.nodes[i].end_byte;
        if start <= end && end <= source.len() {
            match utf8_to_string(slice_subrange(source, start, end)) {
                Some(s) => {
                    proof {
                        vstd::utf8::encode_utf8_valid_utf8(s@);
                        vstd::utf8::encode_utf8_decode_utf8(s@);
                    }
                    s
                },
                None => String::new(),
            }
        } else {
            String::new()
        }
    }
}

} // verus!
