//! The indexer's filter chain: built-in directory and suffix ignores, user
//! ignore patterns, and the extension-to-language routing.

use vstd::prelude::*;

use crate::strutil::{spec_contains_sub, spec_ends_with, spec_starts_with};
use crate::strutil::{str_contains, str_ends_with, str_eq, str_starts_with};

verus! {

/// A directory basename that is never walked into.
pub open spec fn spec_ignored_dir(name: Seq<char>) -> bool {
    ||| name == "node_modules"@
    ||| name == "target"@
    ||| name == ".git"@
    ||| name == "dist"@
    ||| name == "build"@
    ||| name == "__pycache__"@
    ||| name == ".venv"@
    ||| name == "vendor"@
    ||| name == ".next"@
    ||| name == ".nuxt"@
    ||| name == "coverage"@
    ||| name == ".cache"@
}

/// True for directory basenames in the built-in ignore set.
pub fn is_ignored_component(name: &str) -> (r: bool)
    ensures
        r == spec_ignored_dir(name@),
{
    str_eq(name, "node_modules") || str_eq(name, "target") || str_eq(name, ".git") || str_eq(
        name,
        "dist",
    ) || str_eq(name, "build") || str_eq(name, "__pycache__") || str_eq(name, ".venv") || str_eq(
        name,
        "vendor",
    ) || str_eq(name, ".next") || str_eq(name, ".nuxt") || str_eq(name, "coverage") || str_eq(
        name,
        ".cache",
    )
}

/// A file basename that is never indexed, whatever the user's patterns say.
pub open spec fn spec_ignored_suffix(name: Seq<char>) -> bool {
    ||| spec_ends_with(name, ".min.js"@)
    ||| spec_ends_with(name, ".min.mjs"@)
    ||| spec_ends_with(name, ".min.cjs"@)
    ||| spec_ends_with(name, ".min.css"@)
}

/// True for file basenames ending in a built-in ignored suffix.
pub fn is_ignored_suffix(name: &str) -> (r: bool)
    ensures
        r == spec_ignored_suffix(name@),
{
    str_ends_with(name, ".min.js") || str_ends_with(name, ".min.mjs") || str_ends_with(
        name,
        ".min.cjs",
    ) || str_ends_with(name, ".min.css")
}

/// One user ignore pattern against one relative path. A leading `*` asks for
/// a suffix match; a trailing `/` for a prefix match on the whole path or on
/// any path segment; anything else for an exact file name, alone or after a
/// `/`.
pub open spec fn spec_pattern_matches(path: Seq<char>, pat: Seq<char>) -> bool {
    if pat.len() > 0 && pat[0] == '*' {
        spec_ends_with(path, pat.subrange(1, pat.len() as int))
    } else if pat.len() > 0 && pat.last() == '/' {
        spec_starts_with(path, pat) || spec_contains_sub(path, seq!['/'] + pat)
    } else {
        path == pat || spec_ends_with(path, seq!['/'] + pat)
    }
}

/// Some pattern in the list matches the path.
pub open spec fn spec_matches_ignore(path: Seq<char>, pats: Seq<Seq<char>>) -> bool {
    exists|i: int| 0 <= i < pats.len() && spec_pattern_matches(path, pats[i])
}

fn slash_prefixed(pat: &str) -> (r: String)
    ensures
        r@ == seq!['/'] + pat@,
{
    let mut out = String::new();
    out.push('/');
    out.append(pat);
    proof {
        assert(out@ =~= seq!['/'] + pat@);
    }
    out
}

fn pattern_matches(rel_path: &str, pat: &str) -> (r: bool)
    ensures
        r == spec_pattern_matches(rel_path@, pat@),
{
    let n = pat.unicode_len();
    if n > 0 && pat.get_char(0) == '*' {
        let suffix = pat.substring_char(1, n);
        str_ends_with(rel_path, suffix)
    } else if n > 0 && pat.get_char(n - 1) == '/' {
        if str_starts_with(rel_path, pat) {
            true
        } else {
            let seg = slash_prefixed(pat);
            str_contains(rel_path, seg.as_str())
        }
    } else {
        if str_eq(rel_path, pat) {
            true
        } else {
            let seg = slash_prefixed(pat);
            str_ends_with(rel_path, seg.as_str())
        }
    }
}

/// True when some user ignore pattern matches the relative path.
pub fn matches_ignore_pattern(rel_path: &str, patterns: &Vec<String>) -> (r: bool)
    ensures
        r == spec_matches_ignore(rel_path@, patterns.deep_view()),
{
    let mut i: usize = 0;
    while i < patterns.len()
        invariant
            i <= patterns@.len(),
            forall|k: int|
                0 <= k < i ==> !spec_pattern_matches(rel_path@, patterns.deep_view()[k]),
        decreases patterns@.len() - i,
    {
        proof {
            assert(patterns.deep_view()[i as int] == patterns@[i as int]@);
        }
        if pattern_matches(rel_path, patterns[i].as_str()) {
            return true;
        }
        i = i + 1;
    }
    false
}

/// The language tag stored for a file extension, where one is defined.
pub open spec fn spec_detect_language(ext: Seq<char>) -> Option<Seq<char>> {
    if ext == "ts"@ || ext == "tsx"@ || ext == "js"@ || ext == "jsx"@ || ext == "mjs"@ || ext
        == "cjs"@ {
        Some("typescript"@)
    } else if ext == "py"@ || ext == "pyi"@ {
        Some("python"@)
    } else if ext == "rs"@ {
        Some("rust"@)
    } else {
        None
    }
}

/// Maps a file extension to the language tag recorded in the store.
pub fn detect_language(ext: &str) -> (r: Option<&'static str>)
    ensures
        r.deep_view() == spec_detect_language(ext@),
{
    if str_eq(ext, "ts") || str_eq(ext, "tsx") || str_eq(ext, "js") || str_eq(ext, "jsx") || str_eq(
        ext,
        "mjs",
    ) || str_eq(ext, "cjs") {
        Some("typescript")
    } else if str_eq(ext, "py") || str_eq(ext, "pyi") {
        Some("python")
    } else if str_eq(ext, "rs") {
        Some("rust")
    } else {
        None
    }
}

/// The grammars this index understands.
#[derive(Debug, Clone, Copy, PartialEq, Eq, Structural)]
pub enum LanguageId {
    Typescript,
    Python,
    Rust,
    Ruby,
    Markdown,
}

/// The extractor owning a file extension, where one is defined.
pub open spec fn spec_language_for_ext(ext: Seq<char>) -> Option<LanguageId> {
    if ext == "ts"@ || ext == "tsx"@ || ext == "js"@ || ext == "jsx"@ || ext == "mjs"@ || ext
        == "cjs"@ {
        Some(LanguageId::Typescript)
    } else if ext == "py"@ || ext == "pyi"@ {
        Some(LanguageId::Python)
    } else if ext == "rs"@ {
        Some(LanguageId::Rust)
    } else if ext == "rb"@ {
        Some(LanguageId::Ruby)
    } else if ext == "md"@ || ext == "markdown"@ {
        Some(LanguageId::Markdown)
    } else {
        None
    }
}

/// Maps a file extension to the extractor that owns it.
pub fn language_for_ext(ext: &str) -> (r: Option<LanguageId>)
    ensures
        r == spec_language_for_ext(ext@),
{
    if str_eq(ext, "ts") || str_eq(ext, "tsx") || str_eq(ext, "js") || str_eq(ext, "jsx") || str_eq(
        ext,
        "mjs",
    ) || str_eq(ext, "cjs") {
        Some(LanguageId::Typescript)
    } else if str_eq(ext, "py") || str_eq(ext, "pyi") {
        Some(LanguageId::Python)
    } else if str_eq(ext, "rs") {
        Some(LanguageId::Rust)
    } else if str_eq(ext, "rb") {
        Some(LanguageId::Ruby)
    } else if str_eq(ext, "md") || str_eq(ext, "markdown") {
        Some(LanguageId::Markdown)
    } else {
        None
    }
}

} // verus!
