//! The repository's `.gitignore`, as a filter the pipeline consults: the
//! matcher is built from the file's text, and its verdict is a function of
//! that text and the asked-about path.

use vstd::prelude::*;

use crate::strutil::spec_starts_with;

verus! {

#[verifier::external_type_specification]
#[verifier::external_body]
pub struct ExGitignore(ignore::gitignore::Gitignore);

/// The rules text a matcher was built from.
pub uninterp spec fn gitignore_rules(gi: ignore::gitignore::Gitignore) -> Seq<char>;

/// The verdict of a matcher built from the given rules text on the given
/// root-relative path: whether the path, or any of its parent directories,
/// matches an ignore rule. A rules text the builder refuses matches
/// nothing. A function of the rules and the path alone.
pub uninterp spec fn gitignore_ignores(rules: Seq<char>, path: Seq<char>, is_dir: bool) -> bool;

/// Relies on ignore's `GitignoreBuilder` (`new`, `add_line`, `build`): one
/// matcher from one rules text, line by line; an unbuildable text leaves
/// the empty matcher.
#[verifier::external_body]
pub fn build_gitignore(text: &str) -> (r: ignore::gitignore::Gitignore)
    ensures
        gitignore_rules(r) == text@,
{
    let mut builder = ignore::gitignore::GitignoreBuilder::new("");
    for line in text.lines() {
        let _ = builder.add_line(None, line);
    }
    builder.build().unwrap_or_else(|_| ignore::gitignore::Gitignore::empty())
}

/// Relies on ignore's `Gitignore::matched_path_or_any_parents`: the verdict
/// for a relative path, parent directories included; it panics on a rooted
/// path, which the precondition keeps out.
#[verifier::external_body]
fn gitignore_matched(gi: &ignore::gitignore::Gitignore, rel_path: &str, is_dir: bool) -> (r: bool)
    requires
        !spec_starts_with(rel_path@, "/"@),
    ensures
        r == gitignore_ignores(gitignore_rules(*gi), rel_path@, is_dir),
{
    gi.matched_path_or_any_parents(rel_path, is_dir).is_ignore()
}

/// The rules text an optional matcher stands for.
pub open spec fn opt_rules(gi: Option<ignore::gitignore::Gitignore>) -> Option<Seq<char>> {
    match gi {
        Some(g) => Some(gitignore_rules(g)),
        None => None,
    }
}

/// A path the repository's `.gitignore` excludes: there are rules, the path
/// is root-relative, and the matcher ignores it or a parent directory.
pub open spec fn spec_gitignore_rejects(grules: Option<Seq<char>>, rel: Seq<char>) -> bool {
    grules matches Some(rules) && rel.len() > 0 && rel[0] != '/' && gitignore_ignores(
        rules,
        rel,
        false,
    )
}

/// Whether the optional matcher excludes the relative path.
pub fn gitignore_rejects(gi: &Option<ignore::gitignore::Gitignore>, rel_path: &str) -> (r: bool)
    ensures
        r == spec_gitignore_rejects(opt_rules(*gi), rel_path@),
{
    match gi {
        None => false,
        Some(g) => {
            let n = rel_path.unicode_len();
            if n == 0 || rel_path.get_char(0) == '/' {
                proof {
                    reveal_strlit("/");
                }
                false
            } else {
                proof {
                    reveal_strlit("/");
                    assert(!spec_starts_with(rel_path@, "/"@)) by {
                        if spec_starts_with(rel_path@, "/"@) {
                            assert(rel_path@.subrange(0, 1)[0] == rel_path@[0]);
                        }
                    }
                }
                gitignore_matched(g, rel_path, false)
            }
        },
    }
}

} // verus!
