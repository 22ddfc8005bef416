//! Which files are indexed: the language of a file by its extension, the
//! project-wide reclassification of C headers, and the exclusion rules.

use crate::path_utils::{relative_segments, relative_to};
use crate::text::{
    chars_of, last_index_of, lemma_last_index_of, rfind_char, slice_chars, str_eq, string_of,
};
use vstd::prelude::*;

verus! {

/// The languages that are indexed.
#[derive(Debug, Clone, Copy, PartialEq, Eq, Structural)]
pub enum Language {
    TypeScript,
    JavaScript,
    Python,
    Go,
    Rust,
    Java,
    C,
    Cpp,
}

/// The tag under which a language is recorded.
pub open spec fn language_tag(language: Language) -> Seq<char> {
    match language {
        Language::TypeScript => "typescript"@,
        Language::JavaScript => "javascript"@,
        Language::Python => "python"@,
        Language::Go => "go"@,
        Language::Rust => "rust"@,
        Language::Java => "java"@,
        Language::C => "c"@,
        Language::Cpp => "cpp"@,
    }
}

impl Language {
    /// The tag under which the language is recorded.
    pub fn as_str(self) -> (tag: &'static str)
        ensures
            tag@ == language_tag(self),
    {
        match self {
            Language::TypeScript => "typescript",
            Language::JavaScript => "javascript",
            Language::Python => "python",
            Language::Go => "go",
            Language::Rust => "rust",
            Language::Java => "java",
            Language::C => "c",
            Language::Cpp => "cpp",
        }
    }
}

/// The lower-case form of a string, as Unicode defines it.
pub uninterp spec fn lowercase(s: Seq<char>) -> Seq<char>;

/// Lower-cases a string. Trusted: `str::to_lowercase` is a fixed mapping
/// of the string alone.
#[verifier::external_body]
pub(crate) fn to_lowercase(s: &str) -> (out: String)
    ensures
        out@ == lowercase(s@),
{
    s.to_lowercase()
}

/// The file name of a path: what stands behind its last `/`.
pub open spec fn file_name_of(path: Seq<char>) -> Seq<char> {
    path.skip(last_index_of(path, '/') + 1)
}

/// The extension of a path: what stands behind the last dot of the file
/// name, unless the name has no dot or only a leading one.
pub open spec fn extension_of(path: Seq<char>) -> Option<Seq<char>> {
    let name = file_name_of(path);
    let dot = last_index_of(name, '.');
    if dot <= 0 {
        None
    } else {
        Some(name.skip(dot + 1))
    }
}

/// The file name of a path without its extension.
pub open spec fn file_stem_of(path: Seq<char>) -> Seq<char> {
    let name = file_name_of(path);
    let dot = last_index_of(name, '.');
    if dot <= 0 {
        name
    } else {
        name.take(dot)
    }
}

/// The file name of a path, on characters.
fn file_name_chars(path: &Vec<char>) -> (name: Vec<char>)
    ensures
        name@ == file_name_of(path@),
{
    proof {
        lemma_last_index_of(path@, '/');
    }
    let start: usize = match rfind_char(path, '/') {
        Some(i) => i + 1,
        None => 0,
    };
    proof {
        assert(path@.skip(start as int) =~= path@.subrange(start as int, path@.len() as int));
    }
    slice_chars(path, start, path.len())
}

/// The extension of a path.
pub fn extension(path: &str) -> (r: Option<String>)
    ensures
        r.deep_view() == extension_of(path@),
{
    let p = chars_of(path);
    let name = file_name_chars(&p);
    proof {
        lemma_last_index_of(name@, '.');
    }
    match rfind_char(&name, '.') {
        Some(dot) => {
            if dot == 0 {
                None
            } else {
                proof {
                    assert(name@.skip(dot + 1) =~= name@.subrange(dot + 1, name@.len() as int));
                }
                let e = slice_chars(&name, dot + 1, name.len());
                Some(string_of(&e))
            }
        },
        None => None,
    }
}

/// The file name of a path without its extension.
pub fn file_stem(path: &str) -> (r: String)
    ensures
        r@ == file_stem_of(path@),
{
    let p = chars_of(path);
    let name = file_name_chars(&p);
    proof {
        lemma_last_index_of(name@, '.');
    }
    match rfind_char(&name, '.') {
        Some(dot) => {
            if dot == 0 {
                string_of(&name)
            } else {
                let e = slice_chars(&name, 0, dot);
                string_of(&e)
            }
        },
        None => string_of(&name),
    }
}

/// The language that a lower-case extension stands for.
pub open spec fn language_of_extension(ext: Seq<char>) -> Option<Language> {
    if ext == "ts"@ || ext == "tsx"@ {
        Some(Language::TypeScript)
    } else if ext == "js"@ || ext == "jsx"@ || ext == "mjs"@ || ext == "cjs"@ {
        Some(Language::JavaScript)
    } else if ext == "py"@ {
        Some(Language::Python)
    } else if ext == "go"@ {
        Some(Language::Go)
    } else if ext == "rs"@ {
        Some(Language::Rust)
    } else if ext == "java"@ {
        Some(Language::Java)
    } else if ext == "c"@ || ext == "h"@ {
        Some(Language::C)
    } else if is_cpp_extension(ext) {
        Some(Language::Cpp)
    } else {
        None
    }
}

/// Whether a lower-case extension belongs to C++ alone.
pub open spec fn is_cpp_extension(ext: Seq<char>) -> bool {
    ext == "cpp"@ || ext == "cc"@ || ext == "cxx"@ || ext == "hpp"@ || ext == "hh"@
}

/// Tests whether a lower-case extension belongs to C++ alone.
pub fn cpp_extension(ext: &str) -> (r: bool)
    ensures
        r == is_cpp_extension(ext@),
{
    str_eq(ext, "cpp") || str_eq(ext, "cc") || str_eq(ext, "cxx") || str_eq(ext, "hpp") || str_eq(
        ext,
        "hh",
    )
}

/// The language that a lower-case extension stands for.
pub fn language_for_extension(ext: &str) -> (r: Option<Language>)
    ensures
        r == language_of_extension(ext@),
{
    if str_eq(ext, "ts") || str_eq(ext, "tsx") {
        Some(Language::TypeScript)
    } else if str_eq(ext, "js") || str_eq(ext, "jsx") || str_eq(ext, "mjs") || str_eq(ext, "cjs") {
        Some(Language::JavaScript)
    } else if str_eq(ext, "py") {
        Some(Language::Python)
    } else if str_eq(ext, "go") {
        Some(Language::Go)
    } else if str_eq(ext, "rs") {
        Some(Language::Rust)
    } else if str_eq(ext, "java") {
        Some(Language::Java)
    } else if str_eq(ext, "c") || str_eq(ext, "h") {
        Some(Language::C)
    } else if cpp_extension(ext) {
        Some(Language::Cpp)
    } else {
        None
    }
}

/// The language of a file, by its extension in lower case.
pub open spec fn detect_language_spec(path: Seq<char>) -> Option<Language> {
    match extension_of(path) {
        Some(ext) => language_of_extension(lowercase(ext)),
        None => None,
    }
}

/// The language of a file, by its extension; `None` for files that are
/// not indexed.
pub fn detect_language(path: &str) -> (r: Option<Language>)
    ensures
        r == detect_language_spec(path@),
{
    match extension(path) {
        Some(ext) => {
            let lower = to_lowercase(ext.as_str());
            language_for_extension(lower.as_str())
        },
        None => None,
    }
}

/// Whether a path has an extension that belongs to C++ alone.
pub open spec fn is_cpp_source(path: Seq<char>) -> bool {
    match extension_of(path) {
        Some(ext) => is_cpp_extension(lowercase(ext)),
        None => false,
    }
}

/// Whether any of the files is a C++ source.
pub fn has_cpp_source_files(files: &Vec<String>) -> (r: bool)
    ensures
        r == exists|i: int| 0 <= i < files.len() && is_cpp_source(#[trigger] files@[i]@),
{
    let mut i: usize = 0;
    while i < files.len()
        invariant
            i <= files.len(),
            forall|j: int| 0 <= j < i ==> !is_cpp_source(#[trigger] files@[j]@),
        decreases files.len() - i,
    {
        let hit = match extension(files[i].as_str()) {
            Some(ext) => {
                let lower = to_lowercase(ext.as_str());
                cpp_extension(lower.as_str())
            },
            None => false,
        };
        if hit {
            return true;
        }
        i += 1;
    }
    false
}

/// Whether a lower-case extension is that of a header that C and C++
/// share.
pub open spec fn is_header_extension(ext: Seq<char>) -> bool {
    ext == "h"@
}

/// Tests whether a lower-case extension is that of a header that C and
/// C++ share.
pub fn header_extension(ext: &str) -> (r: bool)
    ensures
        r == is_header_extension(ext@),
{
    str_eq(ext, "h")
}

/// Whether a path is a header that C and C++ share.
pub open spec fn is_shared_header(path: Seq<char>) -> bool {
    match extension_of(path) {
        Some(ext) => is_header_extension(lowercase(ext)),
        None => false,
    }
}

/// The language under which a file is indexed: a `.h` file counts as C++
/// once the project holds any C++ source; every other file keeps its
/// language.
pub fn effective_language(path: &str, base: Language, project_has_cpp: bool) -> (r: Language)
    ensures
        r == if base == Language::C && project_has_cpp && is_shared_header(path@) {
            Language::Cpp
        } else {
            base
        },
{
    if base == Language::C && project_has_cpp {
        let header = match extension(path) {
            Some(ext) => {
                let lower = to_lowercase(ext.as_str());
                header_extension(lower.as_str())
            },
            None => false,
        };
        if header {
            Language::Cpp
        } else {
            base
        }
    } else {
        base
    }
}

/// Whether a directory name is always left out.
pub open spec fn is_default_excluded(name: Seq<char>) -> bool {
    name == "node_modules"@ || name == "dist"@ || name == "build"@ || name == ".git"@ || name
        == "vendor"@ || name == "__pycache__"@ || name == "target"@ || name == ".codemap"@
}

/// Tests whether a directory name is always left out.
pub fn default_excluded(name: &str) -> (r: bool)
    ensures
        r == is_default_excluded(name@),
{
    str_eq(name, "node_modules") || str_eq(name, "dist") || str_eq(name, "build") || str_eq(
        name,
        ".git",
    ) || str_eq(name, "vendor") || str_eq(name, "__pycache__") || str_eq(name, "target")
        || str_eq(name, ".codemap")
}

/// Whether a path component is left out: by the fixed list, or because
/// it equals one of the extra names.
pub open spec fn component_excluded(name: Seq<char>, extra: Seq<Seq<char>>) -> bool {
    is_default_excluded(name) || extra.contains(name)
}

/// Whether the path, taken relative to `root`, has a component that is
/// left out. A path that does not lie under `root` is not excluded.
pub open spec fn is_excluded_spec(path: Seq<char>, root: Seq<char>, extra: Seq<Seq<char>>) -> bool {
    match relative_to(path, root) {
        Some(rel) => any_excluded(rel, extra),
        None => false,
    }
}

/// Whether any of the components is left out.
pub open spec fn any_excluded(rel: Seq<Seq<char>>, extra: Seq<Seq<char>>) -> bool {
    exists|i: int| 0 <= i < rel.len() && component_excluded(#[trigger] rel[i], extra)
}

/// Whether a file is left out of the index because of a directory or
/// file name on its way from the root.
pub fn is_excluded(path: &str, root: &str, extra_exclude: &Vec<String>) -> (r: bool)
    ensures
        r == is_excluded_spec(path@, root@, extra_exclude.deep_view()),
{
    match relative_segments(path, root) {
        Some(rel) => {
            let mut i: usize = 0;
            while i < rel.len()
                invariant
                    i <= rel.len(),
                    relative_to(path@, root@) == Some(rel.deep_view()),
                    forall|j: int|
                        0 <= j < i ==> !component_excluded(
                            #[trigger] rel.deep_view()[j],
                            extra_exclude.deep_view(),
                        ),
                decreases rel.len() - i,
            {
                let name = rel[i].as_str();
                if default_excluded(name) || crate::ordered::contains_string(extra_exclude, name) {
                    proof {
                        let r = rel.deep_view();
                        assert(r[i as int] == name@);
                        assert(0 <= i < r.len() && component_excluded(
                            r[i as int],
                            extra_exclude.deep_view(),
                        ));
                        assert(any_excluded(r, extra_exclude.deep_view()));
                    }
                    return true;
                }
                i += 1;
            }
            false
        },
        None => false,
    }
}

} // verus!
