//! The facts that adapters extract, their models, and the helpers that
//! all adapters share.

use crate::ordered::clone_strings;
use crate::syntax::{SyntaxTree, TreeModel};
use crate::text::{chars_of, string_of, trim_chars, trim_set};
use vstd::prelude::*;

verus! {

/// A function found in a source file.
#[derive(Debug)]
pub struct FunctionInfo {
    pub name: String,
    pub start_line: usize,
    pub end_line: usize,
    pub params: Vec<String>,
    pub is_exported: bool,
}

/// The model of a `FunctionInfo`. Lines count from 1 and include both
/// ends.
pub struct FunctionFact {
    pub name: Seq<char>,
    pub start_line: usize,
    pub end_line: usize,
    pub params: Seq<Seq<char>>,
    pub is_exported: bool,
}

impl DeepView for FunctionInfo {
    type V = FunctionFact;

    open spec fn deep_view(&self) -> FunctionFact {
        FunctionFact {
            name: self.name@,
            start_line: self.start_line,
            end_line: self.end_line,
            params: self.params.deep_view(),
            is_exported: self.is_exported,
        }
    }
}

impl Clone for FunctionInfo {
    fn clone(&self) -> (r: Self)
        ensures
            r.deep_view() == self.deep_view(),
    {
        FunctionInfo {
            name: self.name.clone(),
            start_line: self.start_line,
            end_line: self.end_line,
            params: clone_strings(&self.params),
            is_exported: self.is_exported,
        }
    }
}

/// An import found in a source file.
#[derive(Debug)]
pub struct ImportInfo {
    pub source: String,
    pub names: Vec<String>,
    pub is_default: bool,
}

/// The model of an `ImportInfo`: the raw import target, the imported
/// names, and the mark of a C or C++ system include.
pub struct ImportFact {
    pub source: Seq<char>,
    pub names: Seq<Seq<char>>,
    pub is_default: bool,
}

impl DeepView for ImportInfo {
    type V = ImportFact;

    open spec fn deep_view(&self) -> ImportFact {
        ImportFact {
            source: self.source@,
            names: self.names.deep_view(),
            is_default: self.is_default,
        }
    }
}

impl Clone for ImportInfo {
    fn clone(&self) -> (r: Self)
        ensures
            r.deep_view() == self.deep_view(),
    {
        ImportInfo {
            source: self.source.clone(),
            names: clone_strings(&self.names),
            is_default: self.is_default,
        }
    }
}

/// An export found in a source file.
#[derive(Debug)]
pub struct ExportInfo {
    pub name: String,
    pub kind: String,
}

/// The model of an `ExportInfo`.
pub struct ExportFact {
    pub name: Seq<char>,
    pub kind: Seq<char>,
}

impl DeepView for ExportInfo {
    type V = ExportFact;

    open spec fn deep_view(&self) -> ExportFact {
        ExportFact { name: self.name@, kind: self.kind@ }
    }
}

impl Clone for ExportInfo {
    fn clone(&self) -> (r: Self)
        ensures
            r.deep_view() == self.deep_view(),
    {
        ExportInfo { name: self.name.clone(), kind: self.kind.clone() }
    }
}

/// A class-like declaration found in a source file.
#[derive(Debug)]
pub struct ClassInfo {
    pub name: String,
    pub start_line: usize,
    pub end_line: usize,
    pub methods: Vec<String>,
    pub kind: String,
}

/// The model of a `ClassInfo`.
pub struct ClassFact {
    pub name: Seq<char>,
    pub start_line: usize,
    pub end_line: usize,
    pub methods: Seq<Seq<char>>,
    pub kind: Seq<char>,
}

impl DeepView for ClassInfo {
    type V = ClassFact;

    open spec fn deep_view(&self) -> ClassFact {
        ClassFact {
            name: self.name@,
            start_line: self.start_line,
            end_line: self.end_line,
            methods: self.methods.deep_view(),
            kind: self.kind@,
        }
    }
}

impl Clone for ClassInfo {
    fn clone(&self) -> (r: Self)
        ensures
            r.deep_view() == self.deep_view(),
    {
        ClassInfo {
            name: self.name.clone(),
            start_line: self.start_line,
            end_line: self.end_line,
            methods: clone_strings(&self.methods),
            kind: self.kind.clone(),
        }
    }
}

/// The characters that count as quotes.
pub open spec fn quote_chars() -> Seq<char> {
    seq!['\'', '"', '`']
}

/// `s` without the quotes at its ends.
pub open spec fn strip_quotes_spec(s: Seq<char>) -> Seq<char> {
    trim_set(s, quote_chars())
}

/// Removes single quotes, double quotes and backticks from both ends.
pub fn strip_quotes(s: &str) -> (out: String)
    ensures
        out@ == strip_quotes_spec(s@),
{
    let set: Vec<char> = vec!['\'', '"', '`'];
    proof {
        assert(set@ =~= quote_chars());
    }
    let c = chars_of(s);
    let t = trim_chars(&c, &set);
    string_of(&t)
}

/// The text of the child of `i` held under `field`, if there is one.
pub open spec fn field_text_spec(t: TreeModel, src: Seq<u8>, i: int, field: Seq<char>) -> Option<
    Seq<char>,
> {
    match t.child_by_field(i, field) {
        Some(c) => Some(t.text(src, c)),
        None => None,
    }
}

/// The text of the child of `i` held under `field`, if there is one.
pub fn field_text(tree: &SyntaxTree, source: &[u8], i: usize, field: &str) -> (r: Option<String>)
    requires
        i < tree.size(),
    ensures
        r.deep_view() == field_text_spec(tree@, source@, i as int, field@),
{
    match tree.child_by_field_name(i, field) {
        Some(c) => Some(tree.node_text(source, c)),
        None => None,
    }
}

} // verus!
