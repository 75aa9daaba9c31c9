//! Measuring text: lines, words, bytes and the longest line, and the merge of
//! such measurements.

use crate::glob::{
    builder_add, builder_build, builder_new, builder_patterns, error_text, glob_new, glob_parses,
    glob_refusal, matches_any, set_builds, set_is_match, set_patterns, set_refusal,
};
use crate::order::{is_stable_sort, sort_by_path};
use globset::GlobSet;
use vstd::prelude::*;
use vstd::seq_lib::{commutative_foldl, lemma_fold_left_permutation};
use vstd::std_specs::iter::IteratorSpec;
use vstd::string::StringExecFns;
use vstd::string::StringSliceAdditionalSpecFns;
use vstd::utf8::encode_utf8;

verus! {

/// The measurement of one unit of text, as unbounded numbers.
pub struct Metrics {
    /// Number of lines.
    pub lines: nat,
    /// Number of words.
    pub words: nat,
    /// Length of the UTF-8 encoding.
    pub bytes: nat,
    /// Characters in the longest line.
    pub max_line_length: nat,
}

impl Metrics {
    /// The measurement of the empty text, the identity of `merge`.
    pub open spec fn zero() -> Metrics {
        Metrics { lines: 0, words: 0, bytes: 0, max_line_length: 0 }
    }

    /// Lines, words and bytes add up; the longest line is the longer of the two.
    pub open spec fn merge(self, other: Metrics) -> Metrics {
        Metrics {
            lines: self.lines + other.lines,
            words: self.words + other.words,
            bytes: self.bytes + other.bytes,
            max_line_length: if self.max_line_length >= other.max_line_length {
                self.max_line_length
            } else {
                other.max_line_length
            },
        }
    }

    /// Every field can be held in a `usize`.
    pub open spec fn fits(self) -> bool {
        &&& self.lines <= usize::MAX
        &&& self.words <= usize::MAX
        &&& self.bytes <= usize::MAX
        &&& self.max_line_length <= usize::MAX
    }

    /// Merging is commutative.
    pub proof fn lemma_merge_commutative(a: Metrics, b: Metrics)
        ensures
            a.merge(b) == b.merge(a),
    {
    }

    /// Merging is associative.
    pub proof fn lemma_merge_associative(a: Metrics, b: Metrics, c: Metrics)
        ensures
            a.merge(b.merge(c)) == a.merge(b).merge(c),
    {
    }

    /// Merging with the zero measurement changes nothing, on either side.
    pub proof fn lemma_merge_identity(a: Metrics)
        ensures
            a.merge(Metrics::zero()) == a,
            Metrics::zero().merge(a) == a,
    {
    }
}

/// The measurement of one unit of text.
#[derive(Debug, Clone, Copy, PartialEq, Eq, Structural)]
pub struct Count {
    pub lines: usize,
    pub words: usize,
    pub bytes: usize,
    pub max_line_length: usize,
}

impl View for Count {
    type V = Metrics;

    open spec fn view(&self) -> Metrics {
        Metrics {
            lines: self.lines as nat,
            words: self.words as nat,
            bytes: self.bytes as nat,
            max_line_length: self.max_line_length as nat,
        }
    }
}

impl Default for Count {
    fn default() -> (zero: Count)
        ensures
            zero@ == Metrics::zero(),
    {
        Count { lines: 0, words: 0, bytes: 0, max_line_length: 0 }
    }
}

/// One counted file, as the contracts see it.
pub struct Entry {
    /// The file's path.
    pub path: Seq<char>,
    /// What the file measured.
    pub count: Metrics,
}

/// One counted file: its path and what it measured.
pub struct FileEntry {
    pub path: String,
    pub count: Count,
}

impl View for FileEntry {
    type V = Entry;

    open spec fn view(&self) -> Entry {
        Entry { path: self.path@, count: self.count@ }
    }
}

impl DeepView for FileEntry {
    type V = Entry;

    open spec fn deep_view(&self) -> Entry {
        self@
    }
}

/// What reading and measuring one file of a directory gave, as the
/// contracts see it.
pub struct Reading {
    /// The file's path.
    pub path: Seq<char>,
    /// What the file measured, or `None` where it could not be read.
    pub count: Option<Metrics>,
}

/// What reading and measuring one file of a directory gave.
pub struct FileRead {
    pub path: String,
    /// `None` where the file could not be read.
    pub count: Option<Count>,
}

impl View for FileRead {
    type V = Reading;

    open spec fn view(&self) -> Reading {
        Reading {
            path: self.path@,
            count: match self.count {
                Some(count) => Some(count@),
                None => None,
            },
        }
    }
}

impl DeepView for FileRead {
    type V = Reading;

    open spec fn deep_view(&self) -> Reading {
        self@
    }
}

/// What a file's content measures, where there is content.
pub open spec fn measured(content: Option<&str>) -> Option<Metrics> {
    match content {
        Some(text) => Some(measure(text@)),
        None => None,
    }
}

impl FileRead {
    /// The reading of the file at `path`: the measurement of its content, or
    /// none where the content could not be had.
    pub fn new(path: String, content: Option<&str>) -> (read: FileRead)
        ensures
            read@ == (Reading { path: path@, count: measured(content) }),
    {
        let count = match content {
            Some(text) => Some(Count::from_content(text)),
            None => None,
        };
        FileRead { path, count }
    }
}

/// The files that could be read, in the order of their readings. A file that
/// could not be read is left out.
pub open spec fn counted(reads: Seq<Reading>) -> Seq<Entry>
    decreases reads.len(),
{
    if reads.len() == 0 {
        Seq::empty()
    } else {
        let before = counted(reads.drop_last());
        match reads.last().count {
            Some(count) => before.push(Entry { path: reads.last().path, count }),
            None => before,
        }
    }
}

/// The merge of the measurements of all entries.
pub open spec fn total_of(entries: Seq<Entry>) -> Metrics
    decreases entries.len(),
{
    if entries.len() == 0 {
        Metrics::zero()
    } else {
        total_of(entries.drop_last()).merge(entries.last().count)
    }
}

/// What one reading adds to a total: its measurement, and nothing where the
/// file could not be read.
pub open spec fn contribution(reading: Reading) -> Metrics {
    match reading.count {
        Some(count) => count,
        None => Metrics::zero(),
    }
}

/// The total of the files that could be read is the merge of what each
/// reading adds.
pub proof fn lemma_total_of_counted(reads: Seq<Reading>)
    ensures
        total_of(counted(reads)) == reads.fold_left(
            Metrics::zero(),
            |total: Metrics, reading: Reading| total.merge(contribution(reading)),
        ),
    decreases reads.len(),
{
    if reads.len() > 0 {
        lemma_total_of_counted(reads.drop_last());
        let before = counted(reads.drop_last());
        if let Some(count) = reads.last().count {
            let entry = Entry { path: reads.last().path, count };
            assert(before.push(entry).drop_last() =~= before);
        }
    }
}

/// The total of a directory does not depend on the order in which its files
/// were found: readings that differ only in their order give the same
/// total.
pub proof fn lemma_total_ignores_order(a: Seq<Reading>, b: Seq<Reading>)
    requires
        a.to_multiset() == b.to_multiset(),
    ensures
        total_of(counted(a)) == total_of(counted(b)),
{
    let f = |total: Metrics, reading: Reading| total.merge(contribution(reading));
    assert(commutative_foldl(f));
    lemma_total_of_counted(a);
    lemma_total_of_counted(b);
    lemma_fold_left_permutation(a, b, f, Metrics::zero());
}

/// No total of the first entries exceeds the total of all, in any field.
pub proof fn lemma_total_grows(entries: Seq<Entry>, n: int)
    requires
        0 <= n <= entries.len(),
    ensures
        total_of(entries.take(n)).lines <= total_of(entries).lines,
        total_of(entries.take(n)).words <= total_of(entries).words,
        total_of(entries.take(n)).bytes <= total_of(entries).bytes,
        total_of(entries.take(n)).max_line_length <= total_of(entries).max_line_length,
    decreases entries.len() - n,
{
    if n < entries.len() {
        assert(entries.take(n + 1).drop_last() =~= entries.take(n));
        lemma_total_grows(entries, n + 1);
    } else {
        assert(entries.take(n) =~= entries);
    }
}

/// Which files of a directory tree are counted.
#[derive(Debug, Clone)]
pub struct FilterConfig {
    /// Hidden files and directories are counted too.
    pub include_hidden: bool,
    /// Files that match one of these globs are left out.
    pub exclude_patterns: Vec<String>,
    /// Where there are any, only files that match one of these globs stay.
    pub include_patterns: Vec<String>,
}

impl Default for FilterConfig {
    fn default() -> (config: FilterConfig)
        ensures
            !config.include_hidden,
            config.exclude_patterns@.len() == 0,
            config.include_patterns@.len() == 0,
    {
        FilterConfig {
            include_hidden: false,
            exclude_patterns: Vec::new(),
            include_patterns: Vec::new(),
        }
    }
}

/// Glob patterns compiled into one matcher. Only `FilterConfig::build_globset`
/// makes one, so every glob in it was compiled with the default options and
/// what it matches is decided by the text of its patterns.
#[derive(Debug)]
pub struct PatternSet {
    set: GlobSet,
}

impl View for PatternSet {
    type V = Seq<Seq<char>>;

    /// The patterns, in the order in which they were given.
    closed spec fn view(&self) -> Seq<Seq<char>> {
        set_patterns(self.set)
    }
}

impl PatternSet {
    /// Whether some pattern of the set matches the path.
    pub fn matches(&self, path: &str) -> (matched: bool)
        ensures
            matched == matches_any(self@, path@),
    {
        set_is_match(&self.set, path)
    }
}

/// Why a filter could not be set up.
#[derive(Debug)]
pub enum FilterError {
    /// A pattern is not a well-formed glob.
    InvalidPattern {
        /// The pattern as it was given.
        pattern: String,
        /// What the glob compiler said of it.
        reason: String,
    },
    /// The patterns are well-formed, but no set could be made of them.
    SetFailed {
        /// What the glob compiler said.
        reason: String,
    },
}

/// What an error reads as.
pub open spec fn error_message(error: FilterError) -> Seq<char> {
    match error {
        FilterError::InvalidPattern { pattern, reason } => "Invalid glob pattern '"@ + pattern@
            + "': "@ + reason@,
        FilterError::SetFailed { reason } => "Failed to build glob set: "@ + reason@,
    }
}

impl FilterError {
    /// The error as one line of text.
    pub fn message(&self) -> (text: String)
        ensures
            text@ == error_message(*self),
    {
        let mut text = String::new();
        match self {
            FilterError::InvalidPattern { pattern, reason } => {
                text.append("Invalid glob pattern '");
                text.append(pattern.as_str());
                text.append("': ");
                text.append(reason.as_str());
            },
            FilterError::SetFailed { reason } => {
                text.append("Failed to build glob set: ");
                text.append(reason.as_str());
            },
        }
        assert(text@ =~= error_message(*self));
        text
    }
}

/// Every pattern is a well-formed glob.
pub open spec fn all_parse(patterns: Seq<Seq<char>>) -> bool {
    forall|i: int| 0 <= i < patterns.len() ==> glob_parses(#[trigger] patterns[i])
}

/// The pattern at `i` is the first that is not a well-formed glob.
pub open spec fn first_rejected(patterns: Seq<Seq<char>>, i: int) -> bool {
    &&& 0 <= i < patterns.len()
    &&& !glob_parses(patterns[i])
    &&& all_parse(patterns.take(i))
}

/// A set can be made of the patterns: each is a well-formed glob, and their
/// joint matcher compiles.
pub open spec fn compiles(patterns: Seq<Seq<char>>) -> bool {
    all_parse(patterns) && set_builds(patterns)
}

/// No set can be made of the patterns, and `error` says why: it names the
/// first pattern that is not a well-formed glob, or, where all are
/// well-formed, it is the failure to make the set. Its reason is what the
/// glob compiler said, word for word.
pub open spec fn fails_with(patterns: Seq<Seq<char>>, error: FilterError) -> bool {
    match error {
        FilterError::InvalidPattern { pattern, reason } => exists|i: int|
            first_rejected(patterns, i) && pattern@ == #[trigger] patterns[i] && glob_refusal(
                patterns[i],
            ) == Some(reason@),
        FilterError::SetFailed { reason } => all_parse(patterns) && set_refusal(patterns)
            == Some(reason@),
    }
}

/// An error comes only where no set can be made.
pub proof fn lemma_failure_excludes_success(patterns: Seq<Seq<char>>, error: FilterError)
    requires
        fails_with(patterns, error),
    ensures
        !compiles(patterns),
{
    if let FilterError::InvalidPattern { pattern, reason } = error {
        let i = choose|i: int|
            first_rejected(patterns, i) && pattern@ == #[trigger] patterns[i] && glob_refusal(
                patterns[i],
            ) == Some(reason@);
        assert(!glob_parses(patterns[i]));
    }
}

impl FilterConfig {
    /// A configuration of the three settings.
    pub fn new(
        include_hidden: bool,
        exclude_patterns: Vec<String>,
        include_patterns: Vec<String>,
    ) -> (config: FilterConfig)
        ensures
            config.include_hidden == include_hidden,
            config.exclude_patterns == exclude_patterns,
            config.include_patterns == include_patterns,
    {
        FilterConfig { include_hidden, exclude_patterns, include_patterns }
    }

    /// Compiles the patterns into one set. The first pattern that is not a
    /// well-formed glob fails the whole set.
    pub fn build_globset(patterns: &[String]) -> (built: Result<PatternSet, FilterError>)
        ensures
            match built {
                Ok(set) => compiles(patterns.deep_view()) && set@ == patterns.deep_view(),
                Err(error) => fails_with(patterns.deep_view(), error),
            },
    {
        let ghost all = patterns.deep_view();
        let mut builder = builder_new();
        let mut i: usize = 0;
        assert(all.take(0) =~= Seq::<Seq<char>>::empty());
        while i < patterns.len()
            invariant
                i <= patterns.len(),
                all == patterns.deep_view(),
                builder_patterns(builder) == all.take(i as int),
                all_parse(all.take(i as int)),
            decreases patterns.len() - i,
        {
            let pattern = &patterns[i];
            assert(pattern@ == all[i as int]);
            match glob_new(pattern.as_str()) {
                Ok(glob) => {
                    builder_add(&mut builder, glob);
                },
                Err(error) => {
                    let reason = error_text(&error);
                    assert(first_rejected(all, i as int));
                    assert(glob_refusal(all[i as int]) == Some(reason@));
                    return Err(FilterError::InvalidPattern { pattern: pattern.clone(), reason });
                },
            }
            i = i + 1;
            proof {
                assert(all.take(i as int) =~= all.take(i - 1).push(all[i - 1]));
                assert forall|j: int| 0 <= j < i implies glob_parses(
                    #[trigger] all.take(i as int)[j],
                ) by {
                    if j < i - 1 {
                        assert(all.take(i as int)[j] == all.take(i - 1)[j]);
                    }
                }
            }
        }
        assert(all.take(i as int) =~= all);
        match builder_build(&builder) {
            Ok(set) => Ok(PatternSet { set }),
            Err(error) => Err(FilterError::SetFailed { reason: error_text(&error) }),
        }
    }
}

/// The Unicode `White_Space` code points.
pub open spec fn is_space(c: char) -> bool {
    ||| '\u{9}' <= c <= '\u{d}'
    ||| c == ' '
    ||| c == '\u{85}'
    ||| c == '\u{a0}'
    ||| c == '\u{1680}'
    ||| '\u{2000}' <= c <= '\u{200a}'
    ||| c == '\u{2028}'
    ||| c == '\u{2029}'
    ||| c == '\u{202f}'
    ||| c == '\u{205f}'
    ||| c == '\u{3000}'
}

/// A word begins at `i`: a character that is not white space, at the start of
/// the text or right after white space.
pub open spec fn is_word_start(s: Seq<char>, i: int) -> bool {
    &&& 0 <= i < s.len()
    &&& !is_space(s[i])
    &&& (i == 0 || is_space(s[i - 1]))
}

/// Number of words that begin before index `n`.
pub open spec fn words_before(s: Seq<char>, n: int) -> nat
    decreases n,
{
    if n <= 0 {
        0
    } else {
        words_before(s, n - 1) + if is_word_start(s, n - 1) {
            1nat
        } else {
            0nat
        }
    }
}

/// Number of maximal runs of characters that are not white space.
pub open spec fn word_count(s: Seq<char>) -> nat {
    words_before(s, s.len() as int)
}

/// Index of the first line feed of `s`, or `s.len()` where it has none.
pub open spec fn line_end(s: Seq<char>) -> int
    decreases s.len(),
{
    if s.len() == 0 || s[0] == '\n' {
        0
    } else {
        1 + line_end(s.drop_first())
    }
}

/// The first line ends inside the text or at its end.
pub proof fn lemma_line_end_bounds(s: Seq<char>)
    ensures
        0 <= line_end(s) <= s.len(),
    decreases s.len(),
{
    if !(s.len() == 0 || s[0] == '\n') {
        lemma_line_end_bounds(s.drop_first());
    }
}

/// A line without the carriage return that stood before its line feed.
pub open spec fn without_cr(line: Seq<char>) -> Seq<char> {
    if line.len() > 0 && line.last() == '\r' {
        line.drop_last()
    } else {
        line
    }
}

/// The lines of a text. A line ends at a line feed, or at a carriage return
/// and a line feed; neither belongs to the line. What follows the last line
/// feed is a line of its own unless it is empty.
pub open spec fn lines_of(s: Seq<char>) -> Seq<Seq<char>>
    decreases s.len(),
{
    if s.len() == 0 {
        Seq::empty()
    } else {
        let n = line_end(s);
        if n == s.len() {
            seq![s]
        } else {
            proof {
                lemma_line_end_bounds(s);
            }
            seq![without_cr(s.take(n))] + lines_of(s.skip(n + 1))
        }
    }
}

/// Length in characters of the longest of `lines`; zero where there is none.
pub open spec fn longest(lines: Seq<Seq<char>>) -> nat
    decreases lines.len(),
{
    if lines.len() == 0 {
        0
    } else {
        let rest = longest(lines.drop_first());
        if lines[0].len() >= rest {
            lines[0].len()
        } else {
            rest
        }
    }
}

/// The measurement of a text.
pub open spec fn measure(s: Seq<char>) -> Metrics {
    Metrics {
        lines: lines_of(s).len(),
        words: word_count(s),
        bytes: encode_utf8(s).len(),
        max_line_length: longest(lines_of(s)),
    }
}

/// Whether `c` is white space.
pub fn is_whitespace(c: char) -> (space: bool)
    ensures
        space == is_space(c),
{
    ('\u{9}' <= c && c <= '\u{d}') || c == ' ' || c == '\u{85}' || c == '\u{a0}' || c == '\u{1680}'
        || ('\u{2000}' <= c && c <= '\u{200a}') || c == '\u{2028}' || c == '\u{2029}' || c
        == '\u{202f}' || c == '\u{205f}' || c == '\u{3000}'
}

/// Every character takes at least one byte.
pub proof fn lemma_encoding_no_shorter(s: Seq<char>)
    ensures
        encode_utf8(s).len() >= s.len(),
    decreases s.len(),
{
    if s.len() > 0 {
        lemma_encoding_no_shorter(s.drop_first());
    }
}

/// Where the first `k` characters hold no line feed and a line feed or the
/// end follows, the first line ends at `k`.
proof fn lemma_line_end_at(s: Seq<char>, k: int)
    requires
        0 <= k <= s.len(),
        forall|j: int| 0 <= j < k ==> s[j] != '\n',
        k == s.len() || s[k] == '\n',
    ensures
        line_end(s) == k,
    decreases k,
{
    if k > 0 {
        let rest = s.drop_first();
        assert forall|j: int| 0 <= j < k - 1 implies rest[j] != '\n' by {
            assert(rest[j] == s[j + 1]);
        }
        lemma_line_end_at(rest, k - 1);
    }
}

/// A line in front counts once, and the longest line is then the longer of
/// it and the longest of the rest.
proof fn lemma_first_line(first: Seq<char>, rest: Seq<Seq<char>>)
    ensures
        (seq![first] + rest).len() == rest.len() + 1,
        longest(seq![first] + rest) == if first.len() >= longest(rest) {
            first.len()
        } else {
            longest(rest)
        },
{
    let all = seq![first] + rest;
    assert(all[0] == first);
    assert(all.drop_first() =~= rest);
}

/// The number of words never exceeds the number of characters looked at.
proof fn lemma_words_before_bound(s: Seq<char>, n: int)
    requires
        0 <= n,
    ensures
        words_before(s, n) <= n,
    decreases n,
{
    if n > 0 {
        lemma_words_before_bound(s, n - 1);
    }
}

impl std::ops::Add for Count {
    type Output = Count;

    /// The merge of two measurements.
    fn add(self, other: Count) -> (sum: Count) {
        Count {
            lines: self.lines + other.lines,
            words: self.words + other.words,
            bytes: self.bytes + other.bytes,
            max_line_length: if self.max_line_length >= other.max_line_length {
                self.max_line_length
            } else {
                other.max_line_length
            },
        }
    }
}

impl vstd::std_specs::ops::AddSpecImpl for Count {
    open spec fn obeys_add_spec() -> bool {
        true
    }

    open spec fn add_req(self, other: Count) -> bool {
        self@.merge(other@).fits()
    }

    open spec fn add_spec(self, other: Count) -> Count {
        Count {
            lines: (self.lines + other.lines) as usize,
            words: (self.words + other.words) as usize,
            bytes: (self.bytes + other.bytes) as usize,
            max_line_length: if self.max_line_length >= other.max_line_length {
                self.max_line_length
            } else {
                other.max_line_length
            },
        }
    }
}

impl Count {
    /// Measures `content` in one pass over its characters.
    pub fn from_content(content: &str) -> (count: Count)
        ensures
            count@ == measure(content@),
    {
        let bytes = content.as_bytes().len();
        proof {
            lemma_encoding_no_shorter(content@);
        }
        let ghost text = content@;
        let ghost mut i: int = 0;
        let ghost mut start: int = 0;
        let mut lines: usize = 0;
        let mut words: usize = 0;
        let mut max_line_length: usize = 0;
        let mut current: usize = 0;
        let mut after_cr = false;
        let mut after_space = true;
        proof {
            assert(text.skip(0) =~= text);
        }
        for c in chars: content.chars()
            invariant
                chars.seq() == text,
                i == chars.index(),
                text.len() <= usize::MAX,
                0 <= start <= i <= text.len(),
                forall|j: int| start <= j < i ==> text[j] != '\n',
                current == i - start,
                after_cr == (i > start && text[i - 1] == '\r'),
                after_space == (i == 0 || is_space(text[i - 1])),
                words == words_before(text, i),
                lines <= start,
                max_line_length <= start,
                lines_of(text).len() == lines + lines_of(text.skip(start)).len(),
                longest(lines_of(text)) == if max_line_length >= longest(
                    lines_of(text.skip(start)),
                ) {
                    max_line_length as nat
                } else {
                    longest(lines_of(text.skip(start)))
                },
        {
            proof {
                lemma_words_before_bound(text, i);
            }
            let space = is_whitespace(c);
            if !space && after_space {
                words = words + 1;
            }
            after_space = space;
            if c == '\n' {
                let length = if after_cr {
                    current - 1
                } else {
                    current
                };
                proof {
                    let tail = text.skip(start);
                    let n = i - start;
                    assert forall|j: int| 0 <= j < n implies tail[j] != '\n' by {
                        assert(tail[j] == text[start + j]);
                    }
                    assert(tail[n] == text[i]);
                    lemma_line_end_at(tail, n);
                    assert(tail.skip(n + 1) =~= text.skip(i + 1));
                    let line = tail.take(n);
                    assert(n > 0 ==> line.last() == text[i - 1]);
                    lemma_first_line(without_cr(line), lines_of(text.skip(i + 1)));
                    start = i + 1;
                }
                lines = lines + 1;
                if length > max_line_length {
                    max_line_length = length;
                }
                current = 0;
                after_cr = false;
            } else {
                current = current + 1;
                after_cr = c == '\r';
            }
            proof {
                i = i + 1;
            }
        }
        proof {
            let tail = text.skip(start);
            if current > 0 {
                assert forall|j: int| 0 <= j < tail.len() implies tail[j] != '\n' by {
                    assert(tail[j] == text[start + j]);
                }
                lemma_line_end_at(tail, tail.len() as int);
                assert(lines_of(tail) =~= seq![tail] + Seq::<Seq<char>>::empty());
                lemma_first_line(tail, Seq::<Seq<char>>::empty());
            }
        }
        if current > 0 {
            lines = lines + 1;
            if current > max_line_length {
                max_line_length = current;
            }
        }
        Count { lines, words, bytes, max_line_length }
    }

    /// The merge of the measurements of all entries.
    pub fn sum(entries: &Vec<FileEntry>) -> (total: Count)
        requires
            total_of(entries.deep_view()).fits(),
        ensures
            total@ == total_of(entries.deep_view()),
    {
        let ghost all = entries.deep_view();
        let mut total = Count::default();
        let mut i: usize = 0;
        while i < entries.len()
            invariant
                i <= entries.len(),
                all == entries.deep_view(),
                total_of(all).fits(),
                total@ == total_of(all.take(i as int)),
            decreases entries.len() - i,
        {
            proof {
                assert(all.take(i + 1).drop_last() =~= all.take(i as int));
                assert(all.take(i + 1).last() == entries[i as int]@);
                lemma_total_grows(all, i + 1);
            }
            total = total + entries[i].count;
            i = i + 1;
        }
        assert(all.take(i as int) =~= all);
        total
    }

    /// Merges `other` into this measurement.
    pub fn add_assign(&mut self, other: Count)
        requires
            old(self)@.merge(other@).fits(),
        ensures
            final(self)@ == old(self)@.merge(other@),
    {
        *self = *self + other;
    }

    /// The merge of two measurements, or `None` where a sum does not fit in a
    /// `usize`.
    pub fn checked_add(self, other: Count) -> (sum: Option<Count>)
        ensures
            sum is Some <==> self@.merge(other@).fits(),
            sum matches Some(count) ==> count@ == self@.merge(other@),
    {
        let lines = self.lines.checked_add(other.lines);
        let words = self.words.checked_add(other.words);
        let bytes = self.bytes.checked_add(other.bytes);
        match (lines, words, bytes) {
            (Some(lines), Some(words), Some(bytes)) => Some(
                Count {
                    lines,
                    words,
                    bytes,
                    max_line_length: if self.max_line_length >= other.max_line_length {
                        self.max_line_length
                    } else {
                        other.max_line_length
                    },
                },
            ),
            _ => None,
        }
    }
}


/// Counts a directory from the readings of its files: the files that could
/// be read, sorted by path, and the merge of their measurements. A file that
/// could not be read is left out and fails nothing.
pub fn count_directory_detailed(reads: &Vec<FileRead>) -> (counted_files: (Vec<FileEntry>, Count))
    requires
        total_of(counted(reads.deep_view())).fits(),
    ensures
        is_stable_sort(counted(reads.deep_view()), counted_files.0.deep_view()),
        counted_files.0.len() == counted(reads.deep_view()).len(),
        counted_files.1@ == total_of(counted(reads.deep_view())),
        counted_files.1@ == total_of(counted_files.0.deep_view()),
        reads.len() == 0 ==> counted_files.0.len() == 0 && counted_files.1@ == Metrics::zero(),
{
    let ghost all = reads.deep_view();
    let mut readable: Vec<FileEntry> = Vec::new();
    let mut i: usize = 0;
    assert(readable.deep_view() =~= counted(all.take(0)));
    while i < reads.len()
        invariant
            i <= reads.len(),
            all == reads.deep_view(),
            readable.deep_view() == counted(all.take(i as int)),
        decreases reads.len() - i,
    {
        proof {
            assert(all.take(i + 1).drop_last() =~= all.take(i as int));
            assert(all.take(i + 1).last() == reads[i as int]@);
        }
        if let Some(count) = reads[i].count {
            readable.push(FileEntry { path: reads[i].path.clone(), count });
        }
        i = i + 1;
        assert(readable.deep_view() =~= counted(all.take(i as int)));
    }
    assert(all.take(i as int) =~= all);
    let total = Count::sum(&readable);
    let entries = sort_by_path(&readable);
    (entries, total)
}

/// Counts a directory from the readings of its files: the merge of the
/// measurements of the files that could be read, and their number.
pub fn count_directory(reads: &Vec<FileRead>) -> (counted_files: (Count, usize))
    requires
        total_of(counted(reads.deep_view())).fits(),
    ensures
        counted_files.0@ == total_of(counted(reads.deep_view())),
        counted_files.1 == counted(reads.deep_view()).len(),
        reads.len() == 0 ==> counted_files.0@ == Metrics::zero() && counted_files.1 == 0,
{
    let (entries, total) = count_directory_detailed(reads);
    (total, entries.len())
}

} // verus!
