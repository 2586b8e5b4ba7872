//! The purpose of a unit, from where it stands and how it is annotated.

use vstd::prelude::*;

use crate::text::{ends_with, has_at, has_suffix, starts_at};
use crate::types::classification::CodeType;

verus! {

/// What an annotation on a declaration says, as far as the purpose of the
/// code depends on it.
#[derive(Debug, Clone, Copy, PartialEq, Eq, Hash, Structural)]
pub enum Annotation {
    /// The declaration is a test.
    Test,
    /// The declaration is compiled for tests only.
    TestOnly,
    /// Anything else.
    Other,
}

/// A directory `name` stands in `path` at index `i`: a whole component with
/// a separator behind it.
pub open spec fn directory_at(path: Seq<char>, i: int, name: Seq<char>) -> bool {
    &&& has_at(path, i, name)
    &&& i == 0 || path[i - 1] == '/'
    &&& i + name.len() < path.len()
    &&& path[i + name.len()] == '/'
}

/// Some directory of `path` has the name `name`.
pub open spec fn has_directory(path: Seq<char>, name: Seq<char>) -> bool {
    exists|i: int| directory_at(path, i, name)
}

/// The file is a build script: its last component is `build.rs`.
pub open spec fn is_build_script(path: Seq<char>) -> bool {
    path == "build.rs"@ || has_suffix(path, "/build.rs"@)
}

/// The name of a module that holds tests.
pub open spec fn is_test_module_name(name: Seq<char>) -> bool {
    name == "tests"@ || name == "test"@
}

/// The unit stands in a scope that is there for tests: a module with the
/// name of a test module, or a file below a `tests` directory.
pub open spec fn in_test_scope(modules: Seq<Seq<char>>, path: Seq<char>) -> bool {
    has_directory(path, "tests"@) || exists|i: int|
        0 <= i < modules.len() && is_test_module_name(#[trigger] modules[i])
}

/// The purpose of a unit. The first of these that applies decides:
/// a build script; a file below `benches`; a file below `examples`; an
/// annotation for tests only on the unit or around it, or a test annotation on
/// the unit; a scope that is there for tests; else production.
pub open spec fn code_type_of(
    own: Seq<Annotation>,
    enclosing: Seq<Annotation>,
    modules: Seq<Seq<char>>,
    path: Seq<char>,
) -> CodeType {
    if is_build_script(path) {
        CodeType::BuildScript
    } else if has_directory(path, "benches"@) {
        CodeType::Benchmark
    } else if has_directory(path, "examples"@) {
        CodeType::Example
    } else if own.contains(Annotation::TestOnly) || enclosing.contains(Annotation::TestOnly)
        || own.contains(Annotation::Test) {
        CodeType::Test
    } else if in_test_scope(modules, path) {
        CodeType::TestUtility
    } else {
        CodeType::Production
    }
}

/// Whether some directory of the path has the given name.
pub fn path_has_directory(path: &Vec<char>, name: &str) -> (b: bool)
    ensures
        b == has_directory(path@, name@),
{
    let n = name.unicode_len();
    let mut i: usize = 0;
    while i < path.len()
        invariant
            n == name@.len(),
            i <= path.len(),
            forall|k: int| 0 <= k < i ==> !directory_at(path@, k, name@),
        decreases path.len() - i,
    {
        if (i == 0 || path[i - 1] == '/') && starts_at(path, i, name) && n < path.len() - i
            && path[i + n] == '/' {
            assert(directory_at(path@, i as int, name@));
            return true;
        }
        i += 1;
    }
    assert forall|k: int| !directory_at(path@, k, name@) by {
        if directory_at(path@, k, name@) {
            assert(0 <= k < path.len());
        }
    }
    false
}

/// Whether the file is a build script.
pub fn path_is_build_script(path: &Vec<char>) -> (b: bool)
    ensures
        b == is_build_script(path@),
{
    let n = "build.rs".unicode_len();
    let whole = path.len() == n && starts_at(path, 0, "build.rs");
    proof {
        if path@.len() == n {
            assert(path@.subrange(0, n as int) =~= path@);
        }
    }
    whole || ends_with(path, "/build.rs")
}

/// Whether the list holds the annotation.
pub fn has_annotation(list: &Vec<Annotation>, a: Annotation) -> (b: bool)
    ensures
        b == list@.contains(a),
{
    let mut i: usize = 0;
    while i < list.len()
        invariant
            i <= list.len(),
            forall|k: int| 0 <= k < i ==> list@[k] != a,
        decreases list.len() - i,
    {
        if list[i] == a {
            return true;
        }
        i += 1;
    }
    false
}

/// Whether the text is `word`.
pub fn text_is(s: &Vec<char>, word: &str) -> (b: bool)
    ensures
        b == (s@ == word@),
{
    let n = word.unicode_len();
    let b = s.len() == n && starts_at(s, 0, word);
    proof {
        if s@.len() == n {
            assert(s@.subrange(0, n as int) =~= s@);
        }
    }
    b
}

/// Whether some module of the path has the name of a test module.
pub fn has_test_module(modules: &Vec<Vec<char>>) -> (b: bool)
    ensures
        b == exists|i: int|
            0 <= i < modules.len() && is_test_module_name(
                #[trigger] crate::text::views_of(modules@)[i],
            ),
{
    let ghost names = crate::text::views_of(modules@);
    let mut i: usize = 0;
    while i < modules.len()
        invariant
            i <= modules.len(),
            names == crate::text::views_of(modules@),
            forall|k: int| 0 <= k < i ==> !is_test_module_name(#[trigger] names[k]),
        decreases modules.len() - i,
    {
        assert(names[i as int] == modules[i as int]@);
        if text_is(&modules[i], "tests") || text_is(&modules[i], "test") {
            return true;
        }
        i += 1;
    }
    false
}

/// Classifies a unit by its own annotations, those of the scopes around it,
/// the names of the modules around it and the path of its file.
pub fn classify(
    own: &Vec<Annotation>,
    enclosing: &Vec<Annotation>,
    modules: &Vec<Vec<char>>,
    path: &Vec<char>,
) -> (t: CodeType)
    ensures
        t == code_type_of(own@, enclosing@, crate::text::views_of(modules@), path@),
{
    if path_is_build_script(path) {
        CodeType::BuildScript
    } else if path_has_directory(path, "benches") {
        CodeType::Benchmark
    } else if path_has_directory(path, "examples") {
        CodeType::Example
    } else if has_annotation(own, Annotation::TestOnly) || has_annotation(
        enclosing,
        Annotation::TestOnly,
    ) || has_annotation(own, Annotation::Test) {
        CodeType::Test
    } else if path_has_directory(path, "tests") || has_test_module(modules) {
        CodeType::TestUtility
    } else {
        CodeType::Production
    }
}

} // verus!
