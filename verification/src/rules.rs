//! The ignore-rule capability: compiling a rule file's text into a matcher and
//! asking the matcher for a verdict.  Both come from the `ignore` crate and
//! are trusted; the library only names their results.

use vstd::prelude::*;

verus! {

#[verifier::external_type_specification]
#[verifier::external_body]
pub struct ExGitignore(ignore::gitignore::Gitignore);

/// The directory a matcher was built for; matching is relative to it.
pub uninterp spec fn matcher_root(g: ignore::gitignore::Gitignore) -> Seq<char>;

/// The rule text a matcher was compiled from.
pub uninterp spec fn matcher_rules(g: ignore::gitignore::Gitignore) -> Seq<char>;

/// Whether rule text compiles: every line of it is a well-formed rule.
/// Compilation reads nothing but the text, so this is a function of the text.
pub uninterp spec fn rules_ok(text: Seq<char>) -> bool;

/// The verdict of the matcher built at `root` from `rules`, asked about
/// `path` with the given directory flag: `true` means the entry is ignored.
/// The matcher is a function of `root` and `rules`, and its verdict of the
/// queried path and flag, so this names a deterministic result.
pub uninterp spec fn rules_verdict(
    root: Seq<char>,
    rules: Seq<char>,
    path: Seq<char>,
    is_dir: bool,
) -> bool;

/// Relies on `ignore::gitignore::GitignoreBuilder` (`new`, `add_line`,
/// `build`): `new` stores the root, `add_line` fails exactly on a line whose
/// glob does not parse, and `build` compiles the accepted lines into a
/// matcher.  Any failing line makes the whole rule file unusable here, as a
/// rule file read by `ignore::gitignore::Gitignore::new` with an error is.
#[verifier::external_body]
pub(crate) fn compile_rules(root: &str, text: &str) -> (r: Option<ignore::gitignore::Gitignore>)
    ensures
        r is Some <==> rules_ok(text@),
        r matches Some(g) ==> matcher_root(g) == root@ && matcher_rules(g) == text@,
{
    let mut builder = ignore::gitignore::GitignoreBuilder::new(root);
    for line in text.lines() {
        if builder.add_line(None, line).is_err() {
            return None;
        }
    }
    builder.build().ok()
}

/// Relies on `ignore::gitignore::Gitignore::matched`: the verdict depends on
/// the matcher's root and rules, the queried path and the directory flag
/// alone.
#[verifier::external_body]
pub(crate) fn rules_matched(g: &ignore::gitignore::Gitignore, path: &str, is_dir: bool) -> (r:
    bool)
    ensures
        r == rules_verdict(matcher_root(*g), matcher_rules(*g), path@, is_dir),
{
    g.matched(std::path::Path::new(path), is_dir).is_ignore()
}

} // verus!
