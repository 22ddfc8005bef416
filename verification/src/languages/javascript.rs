//! The JavaScript adapter. Exports come from export statements alone.
//! The extraction rules are those of `ecma` without the TypeScript flag.

use crate::languages::collect::{
    classes_spec, exports_spec, extract_classes, extract_exports, extract_functions,
    extract_imports, functions_spec, imports_spec,
};
use crate::languages::facts::{ClassInfo, ExportInfo, FunctionInfo, ImportInfo};
use crate::parser::{parse_with, parsed_model, Grammar};
use crate::syntax::{SyntaxTree, TreeModel};
use crate::traverser::Language;
use vstd::prelude::*;

verus! {

/// The adapter for JavaScript.
#[derive(Debug, Clone, Copy)]
pub struct JavaScriptAdapter;

impl JavaScriptAdapter {
    /// The adapter.
    pub fn new() -> (a: Self) {
        JavaScriptAdapter
    }

    /// The grammar that this adapter parses with.
    pub fn grammar(&self) -> (g: Grammar)
        ensures
            g == Grammar::JavaScript,
    {
        Grammar::JavaScript
    }

    /// Parses a source file. There is always a tree.
    pub fn parse(&self, source: &[u8]) -> (r: Option<SyntaxTree>)
        ensures
            match r {
                Some(t) => t.wf() && t.size() >= 1 && t@ == parsed_model(Grammar::JavaScript, source@),
                None => false,
            },
    {
        parse_with(self.grammar(), source)
    }

    /// The functions of a parsed file.
    pub fn extract_functions(&self, tree: &SyntaxTree, source: &[u8]) -> (out: Vec<FunctionInfo>)
        ensures
            out.deep_view() == functions_spec(Language::JavaScript, tree@, source@),
    {
        extract_functions(Language::JavaScript, tree, source)
    }

    /// The imports of a parsed file.
    pub fn extract_imports(&self, tree: &SyntaxTree, source: &[u8]) -> (out: Vec<ImportInfo>)
        ensures
            out.deep_view() == imports_spec(Language::JavaScript, tree@, source@),
    {
        extract_imports(Language::JavaScript, tree, source)
    }

    /// The exports of a parsed file.
    pub fn extract_exports(&self, tree: &SyntaxTree, source: &[u8]) -> (out: Vec<ExportInfo>)
        ensures
            out.deep_view() == exports_spec(Language::JavaScript, tree@, source@),
    {
        extract_exports(Language::JavaScript, tree, source)
    }

    /// The classes of a parsed file.
    pub fn extract_classes(&self, tree: &SyntaxTree, source: &[u8]) -> (out: Vec<ClassInfo>)
        ensures
            out.deep_view() == classes_spec(Language::JavaScript, tree@, source@),
    {
        extract_classes(Language::JavaScript, tree, source)
    }
}

} // verus!
