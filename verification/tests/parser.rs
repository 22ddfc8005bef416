use codegraph::parser::{parse_source, parse_with, tree_of, Grammar};
use codegraph::syntax::{SyntaxNode, SyntaxTree};
use codegraph::scanner::parse_file;
use codegraph::traverser::Language;

#[test]
fn test_parse_empty_js() {
    let result = parse_file("test.js", Language::JavaScript, b"").unwrap();
    assert_eq!(result.lines, 1);
    assert!(result.functions.is_empty());
}

#[test]
fn test_parse_simple_rust() {
    let src = b"fn main() { println!(\"hello\"); }";
    let result = parse_file("main.rs", Language::Rust, src).unwrap();
    assert_eq!(result.lines, 1);
}

#[test]
fn test_line_count() {
    let src = b"a = 1\nb = 2\nc = 3\n";
    let result = parse_file("test.py", Language::Python, src).unwrap();
    assert_eq!(result.lines, 4);
}

#[test]
fn test_typescript_grammar_loads() {
    let language: tree_sitter::Language = tree_sitter_typescript::LANGUAGE_TYPESCRIPT.into();
    assert!(language.node_kind_count() > 0);
    assert!(parse_with(Grammar::TypeScript, b"").is_some());
}

#[test]
fn test_tsx_grammar_loads() {
    let language: tree_sitter::Language = tree_sitter_typescript::LANGUAGE_TSX.into();
    assert!(language.node_kind_count() > 0);
    assert!(parse_with(Grammar::Tsx, b"").is_some());
}

#[test]
fn test_javascript_grammar_loads() {
    let language: tree_sitter::Language = tree_sitter_javascript::LANGUAGE.into();
    assert!(language.node_kind_count() > 0);
    assert!(parse_with(Grammar::JavaScript, b"").is_some());
}

#[test]
fn test_python_grammar_loads() {
    let language: tree_sitter::Language = tree_sitter_python::LANGUAGE.into();
    assert!(language.node_kind_count() > 0);
    assert!(parse_with(Grammar::Python, b"").is_some());
}

#[test]
fn test_go_grammar_loads() {
    let language: tree_sitter::Language = tree_sitter_go::LANGUAGE.into();
    assert!(language.node_kind_count() > 0);
    assert!(parse_with(Grammar::Go, b"").is_some());
}

#[test]
fn test_rust_grammar_loads() {
    let language: tree_sitter::Language = tree_sitter_rust::LANGUAGE.into();
    assert!(language.node_kind_count() > 0);
    assert!(parse_with(Grammar::Rust, b"").is_some());
}

#[test]
fn test_java_grammar_loads() {
    let language: tree_sitter::Language = tree_sitter_java::LANGUAGE.into();
    assert!(language.node_kind_count() > 0);
    assert!(parse_with(Grammar::Java, b"").is_some());
}

#[test]
fn test_c_grammar_loads() {
    let language: tree_sitter::Language = tree_sitter_c::LANGUAGE.into();
    assert!(language.node_kind_count() > 0);
    assert!(parse_with(Grammar::C, b"").is_some());
}

#[test]
fn test_cpp_grammar_loads() {
    let language: tree_sitter::Language = tree_sitter_cpp::LANGUAGE.into();
    assert!(language.node_kind_count() > 0);
    assert!(parse_with(Grammar::Cpp, b"").is_some());
}

#[test]
fn test_parse_simple_typescript() {
    let tree = parse_with(Grammar::TypeScript, b"const x: number = 42;");
    assert!(tree.is_some());
}

#[test]
fn test_parse_simple_python() {
    let tree = parse_with(Grammar::Python, b"def hello(): pass");
    assert!(tree.is_some());
}

#[test]
fn trees_are_laid_out_in_document_order() {
    let source = b"fn a() {}\nfn b(x: u8) { a(); }\n";
    let tree = parse_source(Language::Rust, source).unwrap();
    let n = tree.len();
    assert!(n > 10);
    assert_eq!(tree.node(0).kind, "source_file");
    assert!(tree.parent(0).is_none());
    assert_eq!(tree.end(0), n);
    for i in 0..n {
        let end = tree.end(i);
        assert!(i < end && end <= n);
        let kids = tree.children_of(i);
        let mut expected = i + 1;
        for k in &kids {
            assert_eq!(*k, expected);
            assert_eq!(tree.parent(*k), Some(i));
            expected = tree.end(*k);
        }
        assert_eq!(expected, end);
        let node = tree.node(i);
        assert!(node.start_byte <= node.end_byte && node.end_byte <= source.len());
        assert!(node.start_line >= 1 && node.start_line <= node.end_line);
    }
    let top = tree.children_of(0);
    assert_eq!(top.len(), 2);
    assert_eq!(tree.node(top[0]).kind, "function_item");
    assert_eq!(tree.node(top[1]).start_line, 2);
    let name = tree.child_by_field_name(top[1], "name").unwrap();
    assert_eq!(tree.node_text(source, name), "b");
    assert!(tree.find_descendant_of_type(top[1], "call_expression").is_some());
    assert!(tree.find_descendant_of_type(top[0], "call_expression").is_none());
}

#[test]
fn text_of_nodes_outside_the_source_is_empty() {
    let tree = parse_source(Language::Python, b"x = 1\n").unwrap();
    assert_eq!(tree.node_text(b"x", 0), "");
    assert_eq!(tree.node_text(b"x = 1\n", 0), "x = 1\n");
}

#[test]
fn the_copy_holds_every_node_of_the_parsed_tree() {
    let source = b"package main\n\nimport \"fmt\"\n\nfunc Run(n int) {\n\tfmt.Println(n)\n}\n";
    let mut parser = tree_sitter::Parser::new();
    parser.set_language(&tree_sitter_go::LANGUAGE.into()).unwrap();
    let parsed = parser.parse(source, None).unwrap();
    let copy = tree_of(Some(parsed.clone())).unwrap();
    let count = parsed.root_node().descendant_count();
    assert_eq!(copy.len(), count);
    let mut cursor = parsed.walk();
    for i in 0..count {
        cursor.goto_descendant(i);
        let node = cursor.node();
        let held = copy.node(i);
        assert_eq!(held.kind, node.kind());
        assert_eq!(held.named, node.is_named());
        assert_eq!(held.field.as_deref(), cursor.field_name());
        assert_eq!((held.start_byte, held.end_byte), (node.start_byte(), node.end_byte()));
        assert_eq!(held.start_line, node.start_position().row + 1);
        assert_eq!(held.end_line, node.end_position().row + 1);
        assert_eq!(copy.end(i), i + node.descendant_count());
        assert_eq!(copy.children_of(i).len(), node.child_count() as usize);
    }
}

#[test]
fn no_tree_gives_no_copy() {
    assert!(tree_of(None).is_none());
}

#[test]
fn every_grammar_is_accepted() {
    for grammar in [
        Grammar::TypeScript,
        Grammar::Tsx,
        Grammar::JavaScript,
        Grammar::Python,
        Grammar::Go,
        Grammar::Rust,
        Grammar::Java,
        Grammar::C,
        Grammar::Cpp,
    ] {
        assert!(parse_with(grammar, b"x").is_some(), "{:?}", grammar);
    }
}

fn node(kind: &str, parent: Option<usize>) -> SyntaxNode {
    SyntaxNode {
        kind: kind.to_string(),
        named: true,
        field: None,
        start_byte: 0,
        end_byte: 0,
        start_line: 1,
        end_line: 1,
        parent,
    }
}

fn family() -> Vec<SyntaxNode> {
    vec![node("root", None), node("a", Some(0)), node("b", Some(0)), node("c", Some(2))]
}

#[test]
fn a_tree_written_by_hand() {
    let tree = SyntaxTree::checked(family(), vec![4, 2, 4, 4]).unwrap();
    assert_eq!(tree.len(), 4);
    assert_eq!(tree.children_of(0), vec![1, 2]);
    assert!(tree.children_of(1).is_empty());
    assert_eq!(tree.children_of(2), vec![3]);
    assert_eq!(tree.parent(3), Some(2));
    assert_eq!(tree.find_child_of_type(0, "b"), Some(2));
    assert_eq!(tree.find_descendant_of_type(0, "c"), Some(3));
    assert_eq!(tree.find_ancestor_of_type(3, "root"), Some(0));
    assert!(SyntaxTree::checked(Vec::new(), Vec::new()).is_some());
}

#[test]
fn a_tree_that_is_not_well_laid_is_refused() {
    // the lengths differ
    assert!(SyntaxTree::checked(family(), vec![4, 2, 4]).is_none());
    // an extent that does not start behind its node
    assert!(SyntaxTree::checked(family(), vec![4, 1, 4, 4]).is_none());
    // an extent that ends outside the tree
    assert!(SyntaxTree::checked(family(), vec![5, 2, 4, 4]).is_none());
    // an extent that reaches out of the subtree around it
    assert!(SyntaxTree::checked(family(), vec![3, 2, 4, 4]).is_none());
    // a second node without a parent
    let mut nodes = family();
    nodes[1].parent = None;
    assert!(SyntaxTree::checked(nodes, vec![4, 2, 4, 4]).is_none());
    // a parent that does not precede its child
    let mut nodes = family();
    nodes[1].parent = Some(2);
    assert!(SyntaxTree::checked(nodes, vec![4, 2, 4, 4]).is_none());
    // a child that names its grandparent
    let mut nodes = family();
    nodes[3].parent = Some(0);
    assert!(SyntaxTree::checked(nodes, vec![4, 2, 4, 4]).is_none());
    // a node that names a sibling as its parent
    let mut nodes = family();
    nodes[2].parent = Some(1);
    assert!(SyntaxTree::checked(nodes, vec![4, 2, 4, 4]).is_none());
}

#[test]
fn a_parsed_tree_passes_the_test_of_its_layout() {
    let source = b"class A:\n    def f(self, x):\n        return x\n";
    let tree = parse_source(Language::Python, source).unwrap();
    let mut nodes = Vec::new();
    let mut ends = Vec::new();
    for i in 0..tree.len() {
        let n = tree.node(i);
        nodes.push(SyntaxNode {
            kind: n.kind.clone(),
            named: n.named,
            field: n.field.clone(),
            start_byte: n.start_byte,
            end_byte: n.end_byte,
            start_line: n.start_line,
            end_line: n.end_line,
            parent: n.parent,
        });
        ends.push(tree.end(i));
    }
    let again = SyntaxTree::checked(nodes, ends).unwrap();
    assert_eq!(again.len(), tree.len());
    for i in 0..tree.len() {
        assert_eq!(again.children_of(i), tree.children_of(i));
    }
}
