//! The decisions of a directory walk: which entries are entered, and which
//! files are kept.

use crate::counter::{compiles, fails_with, FilterConfig, FilterError, PatternSet};
use crate::glob::matches_any;
use vstd::prelude::*;

verus! {

/// A file name that begins with a dot. A name that is not text is not hidden.
pub open spec fn name_is_hidden(file_name: Option<Seq<char>>) -> bool {
    file_name matches Some(name) && name.len() > 0 && name[0] == '.'
}

/// An entry at `depth` below the root of a walk is looked at. The root itself,
/// at depth zero, always is; below it a hidden entry is passed over unless
/// hidden entries are asked for.
pub open spec fn entry_is_entered(
    include_hidden: bool,
    depth: nat,
    file_name: Option<Seq<char>>,
) -> bool {
    depth == 0 || include_hidden || !name_is_hidden(file_name)
}

/// The walk comes to the entry whose path below the root has these file
/// names, the entry's own name last: every entry on the way is entered. A
/// directory that is not entered is never opened, so nothing below it is
/// reached.
pub open spec fn walk_reaches(include_hidden: bool, names: Seq<Option<Seq<char>>>) -> bool {
    forall|i: int|
        0 <= i < names.len() ==> entry_is_entered(include_hidden, (i + 1) as nat, #[trigger] names[i])
}

/// A file with this path relative to the root is kept: none of the
/// `excluded` patterns matches it, and where `only_included` holds one of the
/// `included` patterns does.
pub open spec fn path_is_kept(
    excluded: Seq<Seq<char>>,
    only_included: bool,
    included: Seq<Seq<char>>,
    relative_path: Seq<char>,
) -> bool {
    !matches_any(excluded, relative_path) && (!only_included || matches_any(
        included,
        relative_path,
    ))
}

/// A filter configuration with its patterns compiled.
pub struct PathFilter {
    /// Hidden files and directories are counted too.
    pub include_hidden: bool,
    /// The patterns of files to leave out.
    pub exclude_set: PatternSet,
    /// The patterns of files to keep.
    pub include_set: PatternSet,
    /// There is at least one pattern of files to keep.
    pub has_include_patterns: bool,
}

impl PathFilter {
    /// The filter does what `config` asks for.
    pub open spec fn compiled_from(self, config: FilterConfig) -> bool {
        &&& self.include_hidden == config.include_hidden
        &&& self.exclude_set@ == config.exclude_patterns.deep_view()
        &&& self.include_set@ == config.include_patterns.deep_view()
        &&& self.has_include_patterns == (config.include_patterns@.len() > 0)
    }

    /// The filter looks at an entry at `depth` with this file name.
    pub open spec fn spec_enters(self, depth: nat, file_name: Option<Seq<char>>) -> bool {
        entry_is_entered(self.include_hidden, depth, file_name)
    }

    /// The filter keeps a file with this path relative to the root.
    pub open spec fn spec_accepts(self, relative_path: Seq<char>) -> bool {
        path_is_kept(
            self.exclude_set@,
            self.has_include_patterns,
            self.include_set@,
            relative_path,
        )
    }

    /// Compiles both pattern lists of `config`. The exclude patterns are
    /// compiled first, so an error among them is the one reported.
    pub fn new(config: &FilterConfig) -> (compiled: Result<PathFilter, FilterError>)
        ensures
            match compiled {
                Ok(filter) => {
                    &&& compiles(config.exclude_patterns.deep_view())
                    &&& compiles(config.include_patterns.deep_view())
                    &&& filter.compiled_from(*config)
                },
                Err(error) => {
                    ||| fails_with(config.exclude_patterns.deep_view(), error)
                    ||| (compiles(config.exclude_patterns.deep_view()) && fails_with(
                        config.include_patterns.deep_view(),
                        error,
                    ))
                },
            },
    {
        let exclude_set = match FilterConfig::build_globset(config.exclude_patterns.as_slice()) {
            Ok(set) => set,
            Err(error) => {
                return Err(error);
            },
        };
        let include_set = match FilterConfig::build_globset(config.include_patterns.as_slice()) {
            Ok(set) => set,
            Err(error) => {
                return Err(error);
            },
        };
        let has_include_patterns = config.include_patterns.len() > 0;
        Ok(
            PathFilter {
                include_hidden: config.include_hidden,
                exclude_set,
                include_set,
                has_include_patterns,
            },
        )
    }

    /// Whether the walk looks at an entry at `depth` below the root with this
    /// file name. A directory for which this is false is not opened.
    pub fn enters(&self, depth: usize, file_name: Option<&str>) -> (entered: bool)
        ensures
            entered == self.spec_enters(depth as nat, option_text(file_name)),
    {
        depth == 0 || self.include_hidden || !is_hidden(file_name)
    }

    /// Whether a file with this path relative to the root is kept.
    pub fn accepts(&self, relative_path: &str) -> (kept: bool)
        ensures
            kept == self.spec_accepts(relative_path@),
    {
        if matches_glob(&self.exclude_set, relative_path) {
            return false;
        }
        if self.has_include_patterns && !matches_glob(&self.include_set, relative_path) {
            return false;
        }
        true
    }
}

/// The text of a file name, where it has one.
pub open spec fn option_text(file_name: Option<&str>) -> Option<Seq<char>> {
    match file_name {
        Some(name) => Some(name@),
        None => None,
    }
}

/// Whether a file name begins with a dot.
pub fn is_hidden(file_name: Option<&str>) -> (hidden: bool)
    ensures
        hidden == name_is_hidden(option_text(file_name)),
{
    match file_name {
        Some(name) => !name.is_empty() && name.get_char(0) == '.',
        None => false,
    }
}

/// Whether some glob of the set matches the path.
pub fn matches_glob(glob_set: &PatternSet, relative_path: &str) -> (matched: bool)
    ensures
        matched == matches_any(glob_set@, relative_path@),
{
    glob_set.matches(relative_path)
}

/// Whether an entry that cannot be read fails the whole walk. It does only
/// where it is the root, at depth zero: a directory that cannot be opened
/// is a failure of its own, while an entry below it that cannot be read is
/// passed over.
pub open spec fn unreadable_is_fatal(depth: nat) -> bool {
    depth == 0
}

/// Whether an entry at `depth` that cannot be read fails the whole walk.
pub fn fails_walk(depth: usize) -> (fatal: bool)
    ensures
        fatal == unreadable_is_fatal(depth as nat),
{
    depth == 0
}

/// A path that one of the `excluded` patterns matches is left out, whether
/// or not one of the `included` patterns matches it too.
pub proof fn lemma_exclude_beats_include(
    excluded: Seq<Seq<char>>,
    only_included: bool,
    included: Seq<Seq<char>>,
    relative_path: Seq<char>,
)
    requires
        matches_any(excluded, relative_path),
    ensures
        !path_is_kept(excluded, only_included, included, relative_path),
{
}

/// Nothing below a hidden entry is reached unless hidden entries are asked
/// for: where any name on the way to an entry is hidden, the walk does not
/// come to the entry, whatever its own name is.
pub proof fn lemma_hidden_ancestor_hides(names: Seq<Option<Seq<char>>>, i: int)
    requires
        0 <= i < names.len(),
        name_is_hidden(names[i]),
    ensures
        !walk_reaches(false, names),
{
    assert(!entry_is_entered(false, (i + 1) as nat, names[i]));
}

/// Where hidden entries are asked for, the walk comes to every entry.
pub proof fn lemma_hidden_included_reaches_all(names: Seq<Option<Seq<char>>>)
    ensures
        walk_reaches(true, names),
{
}

/// Where no name on the way to an entry is hidden, the walk comes to it.
pub proof fn lemma_visible_is_reached(include_hidden: bool, names: Seq<Option<Seq<char>>>)
    requires
        forall|i: int| 0 <= i < names.len() ==> !name_is_hidden(#[trigger] names[i]),
    ensures
        walk_reaches(include_hidden, names),
{
}

} // verus!
