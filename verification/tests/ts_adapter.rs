use codegraph::languages::typescript::TypeScriptAdapter;
use codegraph::syntax::SyntaxTree;

fn parse(source: &str, tsx: bool) -> SyntaxTree {
    let adapter = if tsx { TypeScriptAdapter::new_tsx() } else { TypeScriptAdapter::new() };
    adapter.parse(source.as_bytes()).unwrap()
}

#[test]
fn test_ts_extract_functions() {
    let src = r#"
export function greet(name: string): string {
    return `Hello, ${name}`;
}
function helper() {}
"#;
    let tree = parse(src, false);
    let adapter = TypeScriptAdapter::new();
    let fns = adapter.extract_functions(&tree, src.as_bytes());
    assert_eq!(fns.len(), 2);
    assert_eq!(fns[0].name, "greet");
    assert!(fns[0].is_exported);
    assert_eq!(fns[1].name, "helper");
    assert!(!fns[1].is_exported);
}

#[test]
fn test_ts_extract_imports() {
    let src = r#"import { foo, bar } from './utils';
import React from 'react';
"#;
    let tree = parse(src, false);
    let adapter = TypeScriptAdapter::new();
    let imports = adapter.extract_imports(&tree, src.as_bytes());
    assert_eq!(imports.len(), 2);
    assert_eq!(imports[0].source, "./utils");
    assert!(imports[0].names.contains(&"foo".to_string()));
    assert!(imports[0].names.contains(&"bar".to_string()));
    assert_eq!(imports[1].source, "react");
}

#[test]
fn test_ts_extract_exports() {
    let src = r#"
export function myFunc() {}
export class MyClass {}
export interface MyInterface {}
export type MyType = string;
export const MY_CONST = 42;
"#;
    let tree = parse(src, false);
    let adapter = TypeScriptAdapter::new();
    let exports = adapter.extract_exports(&tree, src.as_bytes());
    let names: Vec<&str> = exports.iter().map(|e| e.name.as_str()).collect();
    assert!(names.contains(&"myFunc"));
    assert!(names.contains(&"MyClass"));
    assert!(names.contains(&"MyInterface"));
    assert!(names.contains(&"MyType"));
    assert!(names.contains(&"MY_CONST"));
}

#[test]
fn test_ts_extract_classes() {
    let src = r#"
class Animal {
    speak() {}
    move() {}
}
interface Runnable {}
"#;
    let tree = parse(src, false);
    let adapter = TypeScriptAdapter::new();
    let classes = adapter.extract_classes(&tree, src.as_bytes());
    assert!(classes.iter().any(|c| c.name == "Animal" && c.kind == "class"));
    assert!(classes.iter().any(|c| c.name == "Runnable" && c.kind == "interface"));
    let animal = classes.iter().find(|c| c.name == "Animal").unwrap();
    assert!(animal.methods.contains(&"speak".to_string()));
    assert!(animal.methods.contains(&"move".to_string()));
}
