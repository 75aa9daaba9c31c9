//! What this crate takes on trust about `globset`: compiling glob patterns,
//! collecting them in a set, and matching a path against the set.
//!
//! Every glob here is made by `Glob::new`, with globset's default options,
//! and every set of such globs. What is said below of patterns holds for
//! the platform the crate is built for: globset reads a backslash, and
//! normalises separators, by the platform's rules.

use globset::{Glob, GlobSet, GlobSetBuilder};
use vstd::prelude::*;

verus! {

/// A compiled glob pattern.
#[verifier::external_type_specification]
#[verifier::external_body]
pub struct ExGlob(globset::Glob);

/// Patterns on their way into a set.
#[verifier::external_type_specification]
#[verifier::external_body]
pub struct ExGlobSetBuilder(globset::GlobSetBuilder);

/// A set of compiled patterns.
#[verifier::external_type_specification]
#[verifier::external_body]
pub struct ExGlobSet(globset::GlobSet);

/// Why a pattern or a set was refused.
#[verifier::external_type_specification]
#[verifier::external_body]
pub struct ExGlobError(globset::Error);

/// What `Glob::new` has against the pattern: nothing where it accepts it,
/// and else the text of its error.
pub uninterp spec fn glob_refusal(pattern: Seq<char>) -> Option<Seq<char>>;

/// The pattern that a glob was compiled from, as `Glob::glob` returns it.
pub uninterp spec fn glob_pattern(glob: Glob) -> Seq<char>;

/// The patterns of the globs added to a builder so far, in the order of
/// their adding.
pub uninterp spec fn builder_patterns(builder: GlobSetBuilder) -> Seq<Seq<char>>;

/// The patterns of the globs that a set was built from, in the order of
/// their adding.
pub uninterp spec fn set_patterns(set: GlobSet) -> Seq<Seq<char>>;

/// What `GlobSetBuilder::build` has against a set of these patterns:
/// nothing where it builds the set, and else the text of its error.
pub uninterp spec fn set_refusal(patterns: Seq<Seq<char>>) -> Option<Seq<char>>;

/// Whether the glob compiled from `pattern` matches `path`.
pub uninterp spec fn glob_matches(pattern: Seq<char>, path: Seq<char>) -> bool;

/// What an error reads as, by its `Display`.
pub uninterp spec fn error_display(error: globset::Error) -> Seq<char>;

/// The pattern is a well-formed glob.
pub open spec fn glob_parses(pattern: Seq<char>) -> bool {
    glob_refusal(pattern) is None
}

/// A set can be built of the patterns.
pub open spec fn set_builds(patterns: Seq<Seq<char>>) -> bool {
    set_refusal(patterns) is None
}

/// Some pattern of `patterns` matches `path`.
pub open spec fn matches_any(patterns: Seq<Seq<char>>, path: Seq<char>) -> bool {
    exists|i: int| 0 <= i < patterns.len() && #[trigger] glob_matches(patterns[i], path)
}

/// `Glob::new`: parses a pattern with the default options. It fails on
/// malformed syntax with an error that the pattern alone decides, and a
/// glob that it returns keeps the pattern's text.
#[verifier::external_body]
pub(crate) fn glob_new(pattern: &str) -> (parsed: Result<Glob, globset::Error>)
    ensures
        parsed is Ok <==> glob_refusal(pattern@) is None,
        parsed matches Ok(glob) ==> glob_pattern(glob) == pattern@,
        parsed matches Err(error) ==> glob_refusal(pattern@) == Some(error_display(error)),
{
    Glob::new(pattern)
}

/// `GlobSetBuilder::new`: a builder without patterns.
#[verifier::external_body]
pub(crate) fn builder_new() -> (builder: GlobSetBuilder)
    ensures
        builder_patterns(builder) == Seq::<Seq<char>>::empty(),
{
    GlobSetBuilder::new()
}

/// `GlobSetBuilder::add`: the glob becomes the builder's last pattern.
#[verifier::external_body]
pub(crate) fn builder_add(builder: &mut GlobSetBuilder, glob: Glob)
    ensures
        builder_patterns(*final(builder)) == builder_patterns(*old(builder)).push(
            glob_pattern(glob),
        ),
{
    builder.add(glob);
}

/// `GlobSetBuilder::build`: a set of the builder's patterns, or, where
/// their joint matcher cannot be compiled, an error that the patterns
/// decide.
#[verifier::external_body]
pub(crate) fn builder_build(builder: &GlobSetBuilder) -> (built: Result<GlobSet, globset::Error>)
    ensures
        built is Ok <==> set_refusal(builder_patterns(*builder)) is None,
        built matches Ok(set) ==> set_patterns(set) == builder_patterns(*builder),
        built matches Err(error) ==> set_refusal(builder_patterns(*builder)) == Some(
            error_display(error),
        ),
{
    builder.build()
}

/// `GlobSet::is_match`: whether any glob of the set matches the path.
#[verifier::external_body]
pub(crate) fn set_is_match(set: &GlobSet, path: &str) -> (matched: bool)
    ensures
        matched == (exists|i: int|
            0 <= i < set_patterns(*set).len() && #[trigger] glob_matches(
                set_patterns(*set)[i],
                path@,
            )),
{
    set.is_match(path)
}

/// The `Display` text of a `globset::Error`.
#[verifier::external_body]
pub(crate) fn error_text(error: &globset::Error) -> (text: String)
    ensures
        text@ == error_display(*error),
{
    error.to_string()
}

} // verus!
