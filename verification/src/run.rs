//! The course of one invocation: what is printed for each input as its
//! outcome arrives, what is kept for the end, and what is printed then.
//!
//! Nothing here reads a file or prints a line. The caller does both: it
//! hands each input's outcome to a `Report` and prints what it gets back.

use crate::cli::Args;
use crate::counter::{Count, Entry, FileEntry, Metrics};
use crate::output::{
    compact_text, compact_total_text, files_in, format_compact_output, format_compact_total,
    format_json_multiple, format_json_single, format_output, format_separator,
    format_total_output, format_verbose_output, json_multiple, json_single, output_text,
    separator_text, total_files, total_text, verbose_text, JsonFileResult, JsonResult, OutputKind,
};
use crate::text::push_line;
use vstd::prelude::*;
use vstd::string::StringExecFns;

verus! {

/// The name under which standard input is rendered.
pub const STDIN_NAME: &'static str = "<stdin>";

/// Mark in front of a warning.
pub const WARNING_ICON: &'static str = "\u{26A0}\u{FE0F}";

/// How an input is to be counted.
#[derive(Debug, Clone, Copy, PartialEq, Eq, Structural)]
pub enum Plan {
    /// As a single file.
    File,
    /// As a directory, for its total.
    Directory,
    /// As a directory, file by file.
    Listing,
}

/// How an input is to be counted. A directory is listed file by file in
/// verbose mode, but never for JSON.
pub open spec fn plan_of(is_directory: bool, args: Args) -> Plan {
    if !is_directory {
        Plan::File
    } else if args.verbose && !args.json {
        Plan::Listing
    } else {
        Plan::Directory
    }
}

/// How an input is to be counted.
pub fn plan_for(is_directory: bool, args: &Args) -> (plan: Plan)
    ensures
        plan == plan_of(is_directory, *args),
{
    if !is_directory {
        Plan::File
    } else if args.verbose && !args.json {
        Plan::Listing
    } else {
        Plan::Directory
    }
}

/// What counting one input gave.
pub enum Outcome {
    /// The input could not be opened; the text says why.
    Failed(String),
    /// A file and its measurement.
    File(Count),
    /// A directory: the total of its files, and their number.
    Directory(Count, usize),
    /// A directory: its files, and their total.
    Listing(Vec<FileEntry>, Count),
}

/// What counting one input gave, as the contracts see it.
pub enum Event {
    Failed(Seq<char>),
    File(Metrics),
    Directory(Metrics, nat),
    Listing(Seq<Entry>, Metrics),
}

impl View for Outcome {
    type V = Event;

    open spec fn view(&self) -> Event {
        match self {
            Outcome::Failed(cause) => Event::Failed(cause@),
            Outcome::File(count) => Event::File(count@),
            Outcome::Directory(count, file_count) => Event::Directory(count@, *file_count as nat),
            Outcome::Listing(entries, total) => Event::Listing(entries.deep_view(), total@),
        }
    }
}

impl Event {
    /// What the input adds to the grand total.
    pub open spec fn metrics(self) -> Metrics {
        match self {
            Event::Failed(_) => Metrics::zero(),
            Event::File(count) => count,
            Event::Directory(count, _) => count,
            Event::Listing(_, total) => total,
        }
    }

    /// The number of files that the input adds to the grand total.
    pub open spec fn files(self) -> nat {
        match self {
            Event::Failed(_) => 0,
            Event::File(_) => 1,
            Event::Directory(_, file_count) => file_count,
            Event::Listing(entries, _) => entries.len(),
        }
    }

    /// The input as JSON rendering takes it.
    pub open spec fn json_result(self, name: Seq<char>) -> JsonResult {
        JsonResult {
            name,
            count: self.metrics(),
            is_directory: !(self is File),
            file_count: if self is File {
                None
            } else {
                Some(self.files())
            },
        }
    }
}

/// What a `Report` has taken in, as the contracts see it.
pub struct Summary {
    /// The merge of the measurements of the inputs that succeeded.
    pub total: Metrics,
    /// The number of files in them.
    pub file_count: nat,
    /// Some input failed.
    pub failed: bool,
    /// The inputs that succeeded, in their order.
    pub results: Seq<JsonResult>,
}

/// What is kept from input to input in one invocation. The number of files
/// is always that of the inputs kept.
pub struct Report {
    total: Count,
    failed: bool,
    kept: Kept,
}

/// The inputs that succeeded, and the number of files in them.
struct Kept {
    file_count: usize,
    results: Vec<JsonFileResult>,
}

/// What the caller is to print: lines for standard output and lines for
/// standard error, each to be followed by a line feed.
pub struct Printed {
    pub out: Vec<String>,
    pub err: Vec<String>,
}

impl View for Report {
    type V = Summary;

    closed spec fn view(&self) -> Summary {
        Summary {
            total: self.total@,
            file_count: self.kept.file_count as nat,
            failed: self.failed,
            results: self.kept.results.deep_view(),
        }
    }
}

/// The warning for an input that failed.
pub open spec fn warning_text(name: Seq<char>, cause: Seq<char>) -> Seq<char> {
    WARNING_ICON@ + "  "@ + name + ": "@ + cause
}

/// What an input that succeeded renders as, outside JSON mode. A listing
/// is always verbose; a file or a directory total is compact where that is
/// asked for, and a standard block else.
pub open spec fn rendered(name: Seq<char>, event: Event, args: Args) -> Seq<char> {
    match event {
        Event::Failed(_) => Seq::empty(),
        Event::File(count) => if args.compact {
            compact_text(name, count, OutputKind::File, args)
        } else {
            output_text(name, count, OutputKind::File, args)
        },
        Event::Directory(count, file_count) => if args.compact {
            compact_text(name, count, OutputKind::Directory(file_count as usize), args)
        } else {
            output_text(name, count, OutputKind::Directory(file_count as usize), args)
        },
        Event::Listing(entries, total) => verbose_text(entries, total, args),
    }
}

/// An empty line follows an input that is not the last, except after a
/// compact line.
pub open spec fn blank_follows(event: Event, is_last: bool, args: Args) -> bool {
    !is_last && (event is Listing || !args.compact)
}

/// The lines for standard output when an input's outcome arrives. In JSON
/// mode nothing is printed before the end, and a failure prints nothing here.
pub open spec fn out_lines(name: Seq<char>, event: Event, is_last: bool, args: Args) -> Seq<
    Seq<char>,
> {
    if args.json || event is Failed {
        Seq::empty()
    } else if blank_follows(event, is_last, args) {
        seq![rendered(name, event, args), Seq::empty()]
    } else {
        seq![rendered(name, event, args)]
    }
}

/// The lines for standard error when an input's outcome arrives: a warning
/// where the input failed, in every mode.
pub open spec fn err_lines(name: Seq<char>, event: Event) -> Seq<Seq<char>> {
    match event {
        Event::Failed(cause) => seq![warning_text(name, cause)],
        _ => Seq::empty(),
    }
}

impl Summary {
    /// Before the first input.
    pub open spec fn start() -> Summary {
        Summary { total: Metrics::zero(), file_count: 0, failed: false, results: Seq::empty() }
    }

    /// After one more input. A failure is only remembered; a success adds
    /// to the totals and is kept for the end.
    pub open spec fn after(self, name: Seq<char>, event: Event) -> Summary {
        if event is Failed {
            Summary { failed: true, ..self }
        } else {
            Summary {
                total: self.total.merge(event.metrics()),
                file_count: self.file_count + event.files(),
                failed: self.failed,
                results: self.results.push(event.json_result(name)),
            }
        }
    }

    /// The numbers after one more input can be held.
    pub open spec fn has_room(self, event: Event) -> bool {
        event is Failed || {
            &&& self.total.merge(event.metrics()).fits()
            &&& self.file_count + event.files() <= usize::MAX
        }
    }

    /// The number of inputs that succeeded.
    pub open spec fn succeeded(self) -> nat {
        self.results.len()
    }

    /// The lines for standard output after the last input. In JSON mode:
    /// nothing where no input succeeded, the object of the one that did, or
    /// the object of all with their grand total. In the other modes: where
    /// two or more inputs succeeded, the totals, after an empty line and the
    /// rule line unless the mode is compact.
    pub open spec fn closing(self, args: Args) -> Seq<Seq<char>> {
        if args.json {
            if self.results.len() == 0 {
                Seq::empty()
            } else if self.results.len() == 1 {
                seq![json_single(self.results[0])]
            } else {
                seq![json_multiple(self.results, self.total)]
            }
        } else if self.results.len() <= 1 {
            Seq::empty()
        } else if args.compact {
            seq![compact_total_text(self.file_count, self.total, args)]
        } else {
            seq![Seq::empty(), separator_text(), total_text(self.file_count, self.total, args)]
        }
    }
}

/// A directory's files number what its JSON result says.
proof fn lemma_files_in_json_result(name: Seq<char>, event: Event)
    requires
        !(event is Failed),
    ensures
        files_in(event.json_result(name)) == event.files(),
{
}

impl Report {
    #[verifier::type_invariant]
    spec fn well_formed(self) -> bool {
        self.kept.file_count == total_files(self.kept.results.deep_view())
    }

    /// The report before the first input.
    pub fn new() -> (report: Report)
        ensures
            report@ == Summary::start(),
    {
        let results: Vec<JsonFileResult> = Vec::new();
        assert(results.deep_view() =~= Seq::<JsonResult>::empty());
        Report { total: Count::default(), failed: false, kept: Kept { file_count: 0, results } }
    }

    /// The merge of the measurements of the inputs that succeeded.
    pub fn total(&self) -> (total: Count)
        ensures
            total@ == self@.total,
    {
        self.total
    }

    /// The number of files in the inputs that succeeded.
    pub fn file_count(&self) -> (file_count: usize)
        ensures
            file_count == self@.file_count,
    {
        self.kept.file_count
    }

    /// The number of inputs that succeeded.
    pub fn succeeded(&self) -> (succeeded: usize)
        ensures
            succeeded == self@.succeeded(),
    {
        self.kept.results.len()
    }

    /// Whether the invocation is to end in failure: it does where any input
    /// failed.
    pub fn has_failed(&self) -> (failed: bool)
        ensures
            failed == self@.failed,
    {
        self.failed
    }

    /// Whether the numbers after one more input can be held.
    pub fn has_room(&self, outcome: &Outcome) -> (room: bool)
        ensures
            room == self@.has_room(outcome@),
    {
        let (count, files) = match outcome {
            Outcome::Failed(_) => {
                return true;
            },
            Outcome::File(count) => (*count, 1usize),
            Outcome::Directory(count, file_count) => (*count, *file_count),
            Outcome::Listing(entries, total) => (*total, entries.len()),
        };
        self.total.checked_add(count).is_some() && self.kept.file_count.checked_add(files).is_some()
    }

    /// Takes in the outcome of the input `name` and says what to print for
    /// it now. `is_last` tells that no input follows.
    pub fn record(&mut self, name: &str, outcome: &Outcome, is_last: bool, args: &Args) -> (printed:
        Printed)
        requires
            old(self)@.has_room(outcome@),
        ensures
            final(self)@ == old(self)@.after(name@, outcome@),
            printed.out.deep_view() == out_lines(name@, outcome@, is_last, *args),
            printed.err.deep_view() == err_lines(name@, outcome@),
    {
        proof {
            use_type_invariant(&*self);
        }
        let mut out: Vec<String> = Vec::new();
        let mut err: Vec<String> = Vec::new();
        assert(out.deep_view() =~= Seq::<Seq<char>>::empty());
        assert(err.deep_view() =~= Seq::<Seq<char>>::empty());
        let (count, files, text) = match outcome {
            Outcome::Failed(cause) => {
                let mut warning = String::new();
                warning.append(WARNING_ICON);
                warning.append("  ");
                warning.append(name);
                warning.append(": ");
                warning.append(cause.as_str());
                assert(warning@ =~= warning_text(name@, cause@));
                push_line(&mut err, warning);
                self.failed = true;
                return Printed { out, err };
            },
            Outcome::File(count) => {
                let text = if args.json {
                    String::new()
                } else if args.compact {
                    format_compact_output(name, count, OutputKind::File, args)
                } else {
                    format_output(name, count, OutputKind::File, args)
                };
                (*count, 1usize, text)
            },
            Outcome::Directory(count, file_count) => {
                let kind = OutputKind::Directory(*file_count);
                let text = if args.json {
                    String::new()
                } else if args.compact {
                    format_compact_output(name, count, kind, args)
                } else {
                    format_output(name, count, kind, args)
                };
                (*count, *file_count, text)
            },
            Outcome::Listing(entries, total) => {
                let text = if args.json {
                    String::new()
                } else {
                    format_verbose_output(entries, total, args)
                };
                (*total, entries.len(), text)
            },
        };
        let listed = match outcome {
            Outcome::Listing(_, _) => true,
            _ => false,
        };
        let is_file = match outcome {
            Outcome::File(_) => true,
            _ => false,
        };
        if !args.json {
            push_line(&mut out, text);
            if !is_last && (listed || !args.compact) {
                push_line(&mut out, String::new());
            }
            assert(out.deep_view() =~= out_lines(name@, outcome@, is_last, *args));
        }
        let ghost before = self.kept.results.deep_view();
        let result = JsonFileResult {
            name: String::from_str(name),
            count,
            is_directory: !is_file,
            file_count: if is_file {
                None
            } else {
                Some(files)
            },
        };
        assert(result@ == outcome@.json_result(name@));
        let none: Vec<JsonFileResult> = Vec::new();
        assert(none.deep_view() =~= Seq::<JsonResult>::empty());
        let mut kept = Kept { file_count: 0, results: none };
        std::mem::swap(&mut self.kept, &mut kept);
        kept.results.push(result);
        kept.file_count = kept.file_count + files;
        proof {
            let now = kept.results.deep_view();
            assert(now =~= before.push(outcome@.json_result(name@)));
            assert(now.drop_last() =~= before);
            lemma_files_in_json_result(name@, outcome@);
        }
        self.kept = kept;
        self.total = self.total + count;
        Printed { out, err }
    }

    /// What to print after the last input.
    pub fn finish(&self, args: &Args) -> (lines: Vec<String>)
        ensures
            lines.deep_view() == self@.closing(*args),
    {
        proof {
            use_type_invariant(self);
        }
        let mut lines: Vec<String> = Vec::new();
        assert(lines.deep_view() =~= Seq::<Seq<char>>::empty());
        if args.json {
            if self.kept.results.len() == 1 {
                push_line(&mut lines, format_json_single(&self.kept.results[0]));
            } else if self.kept.results.len() > 1 {
                push_line(&mut lines, format_json_multiple(&self.kept.results, &self.total));
            }
        } else if self.kept.results.len() > 1 {
            if args.compact {
                push_line(
                    &mut lines,
                    format_compact_total(self.kept.file_count, &self.total, args),
                );
            } else {
                push_line(&mut lines, String::new());
                push_line(&mut lines, String::from_str(format_separator()));
                push_line(
                    &mut lines,
                    format_total_output(self.kept.file_count, &self.total, args),
                );
            }
        }
        assert(lines.deep_view() =~= self@.closing(*args));
        lines
    }
}

} // verus!
