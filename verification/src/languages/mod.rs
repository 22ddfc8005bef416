//! The language adapters: for each language, what a parse tree yields as
//! functions, imports, exports and classes.

pub mod c_lang;
pub mod collect;
pub mod cpp;
pub mod ecma;
pub mod facts;
pub mod go_lang;
pub mod java;
pub mod javascript;
pub mod python;
pub mod rust_lang;
pub mod typescript;

pub use crate::languages::collect::{
    extract_classes, extract_exports, extract_functions, extract_imports, get_adapter, Adapter,
};
pub use crate::languages::facts::{
    strip_quotes, ClassFact, ClassInfo, ExportFact, ExportInfo, FunctionFact, FunctionInfo,
    ImportFact, ImportInfo,
};
