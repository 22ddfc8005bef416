//! The TypeScript adapter. Exports come from export statements alone;
//! interfaces and type aliases count. The extraction rules are those of
//! `ecma` with the TypeScript flag.

use crate::languages::collect::{
    classes_spec, exports_spec, extract_classes, extract_exports, extract_functions,
    extract_imports, functions_spec, imports_spec,
};
use crate::languages::facts::{ClassInfo, ExportInfo, FunctionInfo, ImportInfo};
use crate::parser::{parse_with, parsed_model, Grammar};
use crate::syntax::{SyntaxTree, TreeModel};
use crate::traverser::Language;
use vstd::prelude::*;

verus! {

/// The adapter for TypeScript, plain or TSX.
#[derive(Debug, Clone, Copy)]
pub struct TypeScriptAdapter {
    pub tsx: bool,
}

impl TypeScriptAdapter {
    /// The adapter for plain TypeScript.
    pub fn new() -> (a: Self)
        ensures
            !a.tsx,
    {
        TypeScriptAdapter { tsx: false }
    }

    /// The adapter for TSX.
    pub fn new_tsx() -> (a: Self)
        ensures
            a.tsx,
    {
        TypeScriptAdapter { tsx: true }
    }

    /// The grammar that this adapter parses with.
    pub open spec fn grammar_spec(&self) -> Grammar {
        if self.tsx {
            Grammar::Tsx
        } else {
            Grammar::TypeScript
        }
    }

    /// The grammar that this adapter parses with.
    pub fn grammar(&self) -> (g: Grammar)
        ensures
            g == self.grammar_spec(),
    {
        if self.tsx {
            Grammar::Tsx
        } else {
            Grammar::TypeScript
        }
    }

    /// Parses a source file. There is always a tree.
    pub fn parse(&self, source: &[u8]) -> (r: Option<SyntaxTree>)
        ensures
            match r {
                Some(t) => t.wf() && t.size() >= 1 && t@ == parsed_model(self.grammar_spec(), source@),
                None => false,
            },
    {
        parse_with(self.grammar(), source)
    }

    /// The functions of a parsed file.
    pub fn extract_functions(&self, tree: &SyntaxTree, source: &[u8]) -> (out: Vec<FunctionInfo>)
        ensures
            out.deep_view() == functions_spec(Language::TypeScript, tree@, source@),
    {
        extract_functions(Language::TypeScript, tree, source)
    }

    /// The imports of a parsed file.
    pub fn extract_imports(&self, tree: &SyntaxTree, source: &[u8]) -> (out: Vec<ImportInfo>)
        ensures
            out.deep_view() == imports_spec(Language::TypeScript, tree@, source@),
    {
        extract_imports(Language::TypeScript, tree, source)
    }

    /// The exports of a parsed file.
    pub fn extract_exports(&self, tree: &SyntaxTree, source: &[u8]) -> (out: Vec<ExportInfo>)
        ensures
            out.deep_view() == exports_spec(Language::TypeScript, tree@, source@),
    {
        extract_exports(Language::TypeScript, tree, source)
    }

    /// The classes of a parsed file.
    pub fn extract_classes(&self, tree: &SyntaxTree, source: &[u8]) -> (out: Vec<ClassInfo>)
        ensures
            out.deep_view() == classes_spec(Language::TypeScript, tree@, source@),
    {
        extract_classes(Language::TypeScript, tree, source)
    }
}

} // verus!
