//! Rendering measurements: the standard block, the compact line, the verbose
//! file list and JSON.

use crate::cli::Args;
use crate::counter::{Count, Entry, FileEntry, Metrics};
use crate::text::{
    decimal, grouped, join, joined, push_aligned_number, push_char, push_decimal, push_grouped,
    push_line, right_aligned,
};
use vstd::prelude::*;
use vstd::std_specs::iter::IteratorSpec;
use vstd::string::StringExecFns;

verus! {

/// What a result stands for.
#[derive(Debug, Clone, Copy)]
pub enum OutputKind {
    /// A single file.
    File,
    /// A directory and the number of files counted in it.
    Directory(usize),
}

/// One input's result, as JSON rendering takes it.
pub struct JsonFileResult {
    pub name: String,
    pub count: Count,
    pub is_directory: bool,
    pub file_count: Option<usize>,
}

/// One input's result for JSON, as the contracts see it.
pub struct JsonResult {
    pub name: Seq<char>,
    pub count: Metrics,
    pub is_directory: bool,
    pub file_count: Option<nat>,
}

impl View for JsonFileResult {
    type V = JsonResult;

    open spec fn view(&self) -> JsonResult {
        JsonResult {
            name: self.name@,
            count: self.count@,
            is_directory: self.is_directory,
            file_count: match self.file_count {
                Some(n) => Some(n as nat),
                None => None,
            },
        }
    }
}

impl DeepView for JsonFileResult {
    type V = JsonResult;

    open spec fn deep_view(&self) -> JsonResult {
        self@
    }
}

/// Icon in front of a file.
pub const FILE_ICON: &'static str = "\u{1F4C4} ";

/// Icon in front of a directory and of a total.
pub const DIR_ICON: &'static str = "\u{1F4C1} ";

/// Width in characters to which numbers are right-aligned.
pub const NUMBER_WIDTH: usize = 10;

/// Number of characters of the rule line.
pub const SEPARATOR_WIDTH: usize = 25;

/// "file" for one, "files" for any other number.
pub open spec fn plural(count: nat) -> Seq<char> {
    if count == 1 {
        "file"@
    } else {
        "files"@
    }
}

/// The icon, or nothing where icons are switched off.
pub open spec fn icon_or_none(icon: Seq<char>, no_color: bool) -> Seq<char> {
    if no_color {
        Seq::empty()
    } else {
        icon
    }
}

/// `(N file)` or `(N files)`.
pub open spec fn file_count_label(file_count: nat) -> Seq<char> {
    "("@ + decimal(file_count) + " "@ + plural(file_count) + ")"@
}

/// The header of a standard block.
pub open spec fn header_text(name: Seq<char>, kind: OutputKind, no_color: bool) -> Seq<char> {
    match kind {
        OutputKind::File => icon_or_none(FILE_ICON@, no_color) + name,
        OutputKind::Directory(file_count) => icon_or_none(DIR_ICON@, no_color) + name + " "@
            + file_count_label(file_count as nat),
    }
}

/// One metric of a standard block: label, then the number right-aligned.
pub open spec fn metric_line(label: Seq<char>, value: nat) -> Seq<char> {
    label + right_aligned(grouped(value), NUMBER_WIDTH as nat)
}

/// `line` alone where `shown`, else nothing.
pub open spec fn when_shown(shown: bool, line: Seq<char>) -> Seq<Seq<char>> {
    if shown {
        seq![line]
    } else {
        Seq::empty()
    }
}

/// The metric lines of a standard block: longest line, lines, words, bytes,
/// each only where it is selected.
pub open spec fn count_lines(count: Metrics, args: Args) -> Seq<Seq<char>> {
    when_shown(args.show_max_line_length(), metric_line("Max Line: "@, count.max_line_length))
        + when_shown(args.show_lines(), metric_line("   Lines: "@, count.lines)) + when_shown(
        args.show_words(),
        metric_line("   Words: "@, count.words),
    ) + when_shown(args.show_bytes(), metric_line("   Bytes: "@, count.bytes))
}

/// The standard block of one input: header, then the selected metrics.
pub open spec fn output_text(name: Seq<char>, count: Metrics, kind: OutputKind, args: Args) -> Seq<
    char,
> {
    joined(seq![header_text(name, kind, args.no_color)] + count_lines(count, args), "\n"@)
}

/// The header of a totals block.
pub open spec fn total_header(file_count: nat, no_color: bool) -> Seq<char> {
    icon_or_none(DIR_ICON@, no_color) + "Total "@ + file_count_label(file_count)
}

/// The totals block: header, then the selected metrics.
pub open spec fn total_text(file_count: nat, count: Metrics, args: Args) -> Seq<char> {
    joined(seq![total_header(file_count, args.no_color)] + count_lines(count, args), "\n"@)
}

/// The rule line: one box-drawing character, repeated.
pub open spec fn separator_text() -> Seq<char> {
    Seq::new(SEPARATOR_WIDTH as nat, |i: int| '\u{2500}')
}

/// The selected metrics of a compact line.
pub open spec fn compact_parts(count: Metrics, args: Args) -> Seq<Seq<char>> {
    when_shown(args.show_max_line_length(), "max:"@ + grouped(count.max_line_length))
        + when_shown(args.show_lines(), grouped(count.lines) + " lines"@) + when_shown(
        args.show_words(),
        grouped(count.words) + " words"@,
    ) + when_shown(args.show_bytes(), grouped(count.bytes) + " bytes"@)
}

/// The selected metrics of a compact line, separated by comma and space.
pub open spec fn compact_counts(count: Metrics, args: Args) -> Seq<char> {
    joined(compact_parts(count, args), ", "@)
}

/// What stands before the metrics of a compact line: the name, for a
/// directory the number of its files, and a colon.
pub open spec fn compact_header(name: Seq<char>, kind: OutputKind) -> Seq<char> {
    match kind {
        OutputKind::File => name + ":"@,
        OutputKind::Directory(file_count) => name + " "@ + file_count_label(file_count as nat)
            + ":"@,
    }
}

/// The compact line of one input: header, one space, the metrics.
pub open spec fn compact_text(name: Seq<char>, count: Metrics, kind: OutputKind, args: Args) -> Seq<
    char,
> {
    compact_header(name, kind) + " "@ + compact_counts(count, args)
}

/// The compact totals line.
pub open spec fn compact_total_text(file_count: nat, count: Metrics, args: Args) -> Seq<char> {
    "Total "@ + file_count_label(file_count) + ": "@ + compact_counts(count, args)
}

/// Words alone were asked for.
pub open spec fn only_words(args: Args) -> bool {
    !args.lines && args.words && !args.bytes && !args.max_line_length
}

/// Bytes alone were asked for.
pub open spec fn only_bytes(args: Args) -> bool {
    !args.lines && !args.words && args.bytes && !args.max_line_length
}

/// The longest line alone was asked for.
pub open spec fn only_max_line_length(args: Args) -> bool {
    !args.lines && !args.words && !args.bytes && args.max_line_length
}

/// The one metric of a verbose line: the metric that alone was asked for,
/// and lines in every other case.
pub open spec fn single_count(count: Metrics, args: Args) -> Seq<char> {
    if only_words(args) {
        grouped(count.words) + " words"@
    } else if only_bytes(args) {
        grouped(count.bytes) + " bytes"@
    } else if only_max_line_length(args) {
        grouped(count.max_line_length) + " max"@
    } else {
        grouped(count.lines) + " lines"@
    }
}

/// The verbose line of one file.
pub open spec fn verbose_entry(entry: Entry, args: Args) -> Seq<char> {
    icon_or_none(FILE_ICON@, args.no_color) + entry.path + "  "@ + single_count(entry.count, args)
}

/// The verbose lines of the files, in their order.
pub open spec fn verbose_entries(entries: Seq<Entry>, args: Args) -> Seq<Seq<char>> {
    Seq::new(entries.len(), |i: int| verbose_entry(entries[i], args))
}

/// The last line of a verbose listing: the directory's total.
pub open spec fn verbose_total(file_count: nat, total: Metrics, args: Args) -> Seq<char> {
    icon_or_none(DIR_ICON@, args.no_color) + "Total "@ + file_count_label(file_count) + "  "@
        + single_count(total, args)
}

/// The verbose listing of a directory: one line per file, the rule line, the
/// total.
pub open spec fn verbose_text(entries: Seq<Entry>, total: Metrics, args: Args) -> Seq<char> {
    joined(
        verbose_entries(entries, args) + seq![
            separator_text(),
            verbose_total(entries.len(), total, args),
        ],
        "\n"@,
    )
}

/// What one character becomes inside a JSON string: backslash, double
/// quote, line feed, carriage return and tab are escaped.
pub open spec fn escaped_char(c: char) -> Seq<char> {
    if c == '\\' {
        seq!['\\', '\\']
    } else if c == '"' {
        seq!['\\', '"']
    } else if c == '\n' {
        seq!['\\', 'n']
    } else if c == '\r' {
        seq!['\\', 'r']
    } else if c == '\t' {
        seq!['\\', 't']
    } else {
        seq![c]
    }
}

/// A text with each of its characters escaped for a JSON string.
pub open spec fn escaped(text: Seq<char>) -> Seq<char>
    decreases text.len(),
{
    if text.len() == 0 {
        Seq::empty()
    } else {
        escaped(text.drop_last()) + escaped_char(text.last())
    }
}

/// The four metric fields of a JSON object. All four are always there.
pub open spec fn json_metrics(count: Metrics) -> Seq<char> {
    "\"lines\":"@ + decimal(count.lines) + ",\"words\":"@ + decimal(count.words) + ",\"bytes\":"@
        + decimal(count.bytes) + ",\"max_line_length\":"@ + decimal(count.max_line_length)
}

/// The number of files that a directory's JSON object reports.
pub open spec fn json_file_count(result: JsonResult) -> nat {
    match result.file_count {
        Some(n) => n,
        None => 0,
    }
}

/// The JSON object of one input.
pub open spec fn json_single(result: JsonResult) -> Seq<char> {
    if result.is_directory {
        "{\"directory\":\""@ + escaped(result.name) + "\",\"file_count\":"@ + decimal(
            json_file_count(result),
        ) + ","@ + json_metrics(result.count) + "}"@
    } else {
        "{\"file\":\""@ + escaped(result.name) + "\","@ + json_metrics(result.count) + "}"@
    }
}

/// The number of files that one input adds to the grand total: its file
/// count, and one where it has none.
pub open spec fn files_in(result: JsonResult) -> nat {
    match result.file_count {
        Some(n) => n,
        None => 1,
    }
}

/// The number of files in all of `results`.
pub open spec fn total_files(results: Seq<JsonResult>) -> nat
    decreases results.len(),
{
    if results.len() == 0 {
        0
    } else {
        total_files(results.drop_last()) + files_in(results.last())
    }
}

/// The JSON objects of the inputs, in their order.
pub open spec fn json_objects(results: Seq<JsonResult>) -> Seq<Seq<char>> {
    Seq::new(results.len(), |i: int| json_single(results[i]))
}

/// The JSON object of several inputs and their grand total.
pub open spec fn json_multiple(results: Seq<JsonResult>, total: Metrics) -> Seq<char> {
    "{\"files\":["@ + joined(json_objects(results), ","@) + "],\"total\":{\"file_count\":"@
        + decimal(total_files(results)) + ","@ + json_metrics(total) + "}}"@
}

/// `n` in decimal digits, grouped by thousands with commas.
pub fn format_number(n: usize) -> (text: String)
    ensures
        text@ == grouped(n as nat),
{
    let mut text = String::new();
    let _ = push_grouped(&mut text, n);
    assert(text@ =~= grouped(n as nat));
    text
}

/// "file" for one, "files" for any other number.
pub fn pluralize_files(count: usize) -> (word: &'static str)
    ensures
        word@ == plural(count as nat),
{
    if count == 1 {
        "file"
    } else {
        "files"
    }
}

/// Appends `(N file)` or `(N files)`.
fn push_file_count_label(text: &mut String, file_count: usize)
    ensures
        final(text)@ == old(text)@ + file_count_label(file_count as nat),
{
    text.append("(");
    push_decimal(text, file_count);
    text.append(" ");
    text.append(pluralize_files(file_count));
    text.append(")");
    assert(text@ =~= old(text)@ + file_count_label(file_count as nat));
}

/// Appends the icon unless icons are switched off.
fn push_icon(text: &mut String, icon: &str, no_color: bool)
    ensures
        final(text)@ == old(text)@ + icon_or_none(icon@, no_color),
{
    if !no_color {
        text.append(icon);
    }
    assert(text@ =~= old(text)@ + icon_or_none(icon@, no_color));
}

/// The header of a standard block: icon and name, and for a directory the
/// number of its files.
pub fn format_header(name: &str, kind: OutputKind, no_color: bool) -> (text: String)
    ensures
        text@ == header_text(name@, kind, no_color),
{
    let mut text = String::new();
    match kind {
        OutputKind::File => {
            push_icon(&mut text, FILE_ICON, no_color);
            text.append(name);
        },
        OutputKind::Directory(file_count) => {
            push_icon(&mut text, DIR_ICON, no_color);
            text.append(name);
            text.append(" ");
            push_file_count_label(&mut text, file_count);
        },
    }
    assert(text@ =~= header_text(name@, kind, no_color));
    text
}

/// One metric of a standard block.
fn metric_line_of(label: &str, value: usize) -> (line: String)
    ensures
        line@ == metric_line(label@, value as nat),
{
    let mut line = String::new();
    line.append(label);
    push_aligned_number(&mut line, value, NUMBER_WIDTH);
    assert(line@ =~= metric_line(label@, value as nat));
    line
}

/// Adds the metric lines of a standard block to `lines`.
fn push_count_lines(lines: &mut Vec<String>, count: &Count, args: &Args)
    ensures
        final(lines).deep_view() == old(lines).deep_view() + count_lines(count@, *args),
{
    let ghost start = lines.deep_view();
    if args.show_max_line_length() {
        push_line(lines, metric_line_of("Max Line: ", count.max_line_length));
    }
    let ghost first = when_shown(
        args.show_max_line_length(),
        metric_line("Max Line: "@, count@.max_line_length),
    );
    assert(lines.deep_view() =~= start + first);
    if args.show_lines() {
        push_line(lines, metric_line_of("   Lines: ", count.lines));
    }
    let ghost second = first + when_shown(
        args.show_lines(),
        metric_line("   Lines: "@, count@.lines),
    );
    assert(lines.deep_view() =~= start + second);
    if args.show_words() {
        push_line(lines, metric_line_of("   Words: ", count.words));
    }
    let ghost third = second + when_shown(
        args.show_words(),
        metric_line("   Words: "@, count@.words),
    );
    assert(lines.deep_view() =~= start + third);
    if args.show_bytes() {
        push_line(lines, metric_line_of("   Bytes: ", count.bytes));
    }
    let ghost fourth = third + when_shown(
        args.show_bytes(),
        metric_line("   Bytes: "@, count@.bytes),
    );
    assert(lines.deep_view() =~= start + fourth);
}

/// The metric lines of a standard block, each only where it is selected.
pub fn format_count_lines(count: &Count, args: &Args) -> (lines: Vec<String>)
    ensures
        lines.deep_view() == count_lines(count@, *args),
{
    let mut lines: Vec<String> = Vec::new();
    assert(lines.deep_view() =~= Seq::<Seq<char>>::empty());
    push_count_lines(&mut lines, count, args);
    assert(lines.deep_view() =~= count_lines(count@, *args));
    lines
}

/// The standard block of one input.
pub fn format_output(name: &str, count: &Count, kind: OutputKind, args: &Args) -> (text: String)
    ensures
        text@ == output_text(name@, count@, kind, *args),
{
    let mut lines: Vec<String> = Vec::new();
    assert(lines.deep_view() =~= Seq::<Seq<char>>::empty());
    push_line(&mut lines, format_header(name, kind, args.no_color));
    push_count_lines(&mut lines, count, args);
    assert(lines.deep_view() =~= seq![header_text(name@, kind, args.no_color)] + count_lines(
        count@,
        *args,
    ));
    join(&lines, "\n")
}

/// The rule line between the inputs and their total.
pub fn format_separator() -> (line: &'static str)
    ensures
        line@ == separator_text(),
{
    let line = "\u{2500}\u{2500}\u{2500}\u{2500}\u{2500}\u{2500}\u{2500}\u{2500}\u{2500}\u{2500}\u{2500}\u{2500}\u{2500}\u{2500}\u{2500}\u{2500}\u{2500}\u{2500}\u{2500}\u{2500}\u{2500}\u{2500}\u{2500}\u{2500}\u{2500}";
    proof {
        reveal_strlit(
            "\u{2500}\u{2500}\u{2500}\u{2500}\u{2500}\u{2500}\u{2500}\u{2500}\u{2500}\u{2500}\u{2500}\u{2500}\u{2500}\u{2500}\u{2500}\u{2500}\u{2500}\u{2500}\u{2500}\u{2500}\u{2500}\u{2500}\u{2500}\u{2500}\u{2500}",
        );
        assert(line@ =~= separator_text());
    }
    line
}

/// One metric of a compact line: the number, then the unit.
fn compact_part(value: usize, unit: &str) -> (part: String)
    ensures
        part@ == grouped(value as nat) + unit@,
{
    let mut part = String::new();
    let _ = push_grouped(&mut part, value);
    part.append(unit);
    assert(part@ =~= grouped(value as nat) + unit@);
    part
}

/// The longest line on a compact line: `max:` and the number.
fn compact_max(value: usize) -> (part: String)
    ensures
        part@ == "max:"@ + grouped(value as nat),
{
    let mut part = String::new();
    part.append("max:");
    let _ = push_grouped(&mut part, value);
    assert(part@ =~= "max:"@ + grouped(value as nat));
    part
}

/// The selected metrics of a compact line, separated by comma and space.
pub fn format_compact_counts(count: &Count, args: &Args) -> (text: String)
    ensures
        text@ == compact_counts(count@, *args),
{
    let mut parts: Vec<String> = Vec::new();
    assert(parts.deep_view() =~= Seq::<Seq<char>>::empty());
    if args.show_max_line_length() {
        push_line(&mut parts, compact_max(count.max_line_length));
    }
    let ghost first = when_shown(
        args.show_max_line_length(),
        "max:"@ + grouped(count@.max_line_length),
    );
    assert(parts.deep_view() =~= first);
    if args.show_lines() {
        push_line(&mut parts, compact_part(count.lines, " lines"));
    }
    let ghost second = first + when_shown(args.show_lines(), grouped(count@.lines) + " lines"@);
    assert(parts.deep_view() =~= second);
    if args.show_words() {
        push_line(&mut parts, compact_part(count.words, " words"));
    }
    let ghost third = second + when_shown(args.show_words(), grouped(count@.words) + " words"@);
    assert(parts.deep_view() =~= third);
    if args.show_bytes() {
        push_line(&mut parts, compact_part(count.bytes, " bytes"));
    }
    let ghost fourth = third + when_shown(args.show_bytes(), grouped(count@.bytes) + " bytes"@);
    assert(parts.deep_view() =~= fourth);
    join(&parts, ", ")
}

/// The compact line of one input: name, then the selected metrics.
pub fn format_compact_output(name: &str, count: &Count, kind: OutputKind, args: &Args) -> (text:
    String)
    ensures
        text@ == compact_text(name@, count@, kind, *args),
{
    let mut text = String::new();
    text.append(name);
    match kind {
        OutputKind::File => {
            text.append(":");
        },
        OutputKind::Directory(file_count) => {
            text.append(" ");
            push_file_count_label(&mut text, file_count);
            text.append(":");
        },
    }
    assert(text@ =~= compact_header(name@, kind));
    text.append(" ");
    let counts = format_compact_counts(count, args);
    text.append(counts.as_str());
    text
}

/// The compact totals line.
pub fn format_compact_total(file_count: usize, count: &Count, args: &Args) -> (text: String)
    ensures
        text@ == compact_total_text(file_count as nat, count@, *args),
{
    let mut text = String::new();
    text.append("Total ");
    push_file_count_label(&mut text, file_count);
    text.append(": ");
    let counts = format_compact_counts(count, args);
    text.append(counts.as_str());
    assert(text@ =~= compact_total_text(file_count as nat, count@, *args));
    text
}

/// Appends the one metric of a verbose line.
fn push_single_count(text: &mut String, count: &Count, args: &Args)
    ensures
        final(text)@ == old(text)@ + single_count(count@, *args),
{
    if !args.lines && args.words && !args.bytes && !args.max_line_length {
        let _ = push_grouped(text, count.words);
        text.append(" words");
    } else if !args.lines && !args.words && args.bytes && !args.max_line_length {
        let _ = push_grouped(text, count.bytes);
        text.append(" bytes");
    } else if !args.lines && !args.words && !args.bytes && args.max_line_length {
        let _ = push_grouped(text, count.max_line_length);
        text.append(" max");
    } else {
        let _ = push_grouped(text, count.lines);
        text.append(" lines");
    }
    assert(text@ =~= old(text)@ + single_count(count@, *args));
}

/// The one metric of a verbose line.
pub fn format_single_count(count: &Count, args: &Args) -> (text: String)
    ensures
        text@ == single_count(count@, *args),
{
    let mut text = String::new();
    push_single_count(&mut text, count, args);
    assert(text@ =~= single_count(count@, *args));
    text
}

/// The verbose line of one file: icon, path, and one metric.
pub fn format_verbose_entry(entry: &FileEntry, args: &Args) -> (text: String)
    ensures
        text@ == verbose_entry(entry@, *args),
{
    let mut text = String::new();
    push_icon(&mut text, FILE_ICON, args.no_color);
    text.append(entry.path.as_str());
    text.append("  ");
    push_single_count(&mut text, &entry.count, args);
    assert(text@ =~= verbose_entry(entry@, *args));
    text
}

/// The verbose listing of a directory.
pub fn format_verbose_output(entries: &Vec<FileEntry>, total: &Count, args: &Args) -> (text: String)
    ensures
        text@ == verbose_text(entries.deep_view(), total@, *args),
{
    let ghost all = entries.deep_view();
    let mut lines: Vec<String> = Vec::new();
    assert(lines.deep_view() =~= verbose_entries(all.take(0), *args));
    let mut i: usize = 0;
    while i < entries.len()
        invariant
            i <= entries.len(),
            all == entries.deep_view(),
            lines.deep_view() == verbose_entries(all.take(i as int), *args),
        decreases entries.len() - i,
    {
        push_line(&mut lines, format_verbose_entry(&entries[i], args));
        i = i + 1;
        assert(lines.deep_view() =~= verbose_entries(all.take(i as int), *args));
    }
    assert(all.take(i as int) =~= all);
    push_line(&mut lines, String::from_str(format_separator()));
    let file_count = entries.len();
    let mut last = String::new();
    push_icon(&mut last, DIR_ICON, args.no_color);
    last.append("Total ");
    push_file_count_label(&mut last, file_count);
    last.append("  ");
    push_single_count(&mut last, total, args);
    assert(last@ =~= verbose_total(all.len(), total@, *args));
    push_line(&mut lines, last);
    assert(lines.deep_view() =~= verbose_entries(all, *args) + seq![
        separator_text(),
        verbose_total(all.len(), total@, *args),
    ]);
    join(&lines, "\n")
}

/// Appends what `c` becomes inside a JSON string.
fn push_escaped_char(text: &mut String, c: char)
    ensures
        final(text)@ == old(text)@ + escaped_char(c),
{
    if c == '\\' {
        push_char(text, '\\');
        push_char(text, '\\');
    } else if c == '"' {
        push_char(text, '\\');
        push_char(text, '"');
    } else if c == '\n' {
        push_char(text, '\\');
        push_char(text, 'n');
    } else if c == '\r' {
        push_char(text, '\\');
        push_char(text, 'r');
    } else if c == '\t' {
        push_char(text, '\\');
        push_char(text, 't');
    } else {
        push_char(text, c);
    }
    assert(text@ =~= old(text)@ + escaped_char(c));
}

/// `s` with backslash, double quote, line feed, carriage return and tab
/// escaped for a JSON string.
pub fn escape_json(s: &str) -> (text: String)
    ensures
        text@ == escaped(s@),
{
    let mut text = String::new();
    let ghost all = s@;
    let ghost mut i: int = 0;
    assert(all.take(0) =~= Seq::<char>::empty());
    for c in chars: s.chars()
        invariant
            chars.seq() == all,
            i == chars.index(),
            0 <= i <= all.len(),
            text@ == escaped(all.take(i)),
    {
        push_escaped_char(&mut text, c);
        proof {
            assert(all.take(i + 1).drop_last() =~= all.take(i));
            i = i + 1;
        }
    }
    assert(all.take(i) =~= all);
    text
}

/// Appends the four metric fields of a JSON object.
fn push_json_metrics(text: &mut String, count: &Count)
    ensures
        final(text)@ == old(text)@ + json_metrics(count@),
{
    text.append("\"lines\":");
    push_decimal(text, count.lines);
    text.append(",\"words\":");
    push_decimal(text, count.words);
    text.append(",\"bytes\":");
    push_decimal(text, count.bytes);
    text.append(",\"max_line_length\":");
    push_decimal(text, count.max_line_length);
    assert(text@ =~= old(text)@ + json_metrics(count@));
}

/// The JSON object of one input.
pub fn format_json_single(result: &JsonFileResult) -> (text: String)
    ensures
        text@ == json_single(result@),
{
    let mut text = String::new();
    let name = escape_json(result.name.as_str());
    if result.is_directory {
        let file_count = match result.file_count {
            Some(n) => n,
            None => 0,
        };
        text.append("{\"directory\":\"");
        text.append(name.as_str());
        text.append("\",\"file_count\":");
        push_decimal(&mut text, file_count);
        text.append(",");
        push_json_metrics(&mut text, &result.count);
        text.append("}");
    } else {
        text.append("{\"file\":\"");
        text.append(name.as_str());
        text.append("\",");
        push_json_metrics(&mut text, &result.count);
        text.append("}");
    }
    assert(text@ =~= json_single(result@));
    text
}

/// The number of files never goes down as results are added.
proof fn lemma_total_files_monotonic(results: Seq<JsonResult>, n: int)
    requires
        0 <= n <= results.len(),
    ensures
        total_files(results.take(n)) <= total_files(results),
    decreases results.len() - n,
{
    if n < results.len() {
        assert(results.take(n + 1).drop_last() =~= results.take(n));
        lemma_total_files_monotonic(results, n + 1);
    } else {
        assert(results.take(n) =~= results);
    }
}

/// The JSON object of several inputs and their grand total.
pub fn format_json_multiple(results: &Vec<JsonFileResult>, total: &Count) -> (text: String)
    requires
        total_files(results.deep_view()) <= usize::MAX,
    ensures
        text@ == json_multiple(results.deep_view(), total@),
{
    let ghost all = results.deep_view();
    let mut objects: Vec<String> = Vec::new();
    let mut file_count: usize = 0;
    assert(objects.deep_view() =~= json_objects(all.take(0)));
    let mut i: usize = 0;
    while i < results.len()
        invariant
            i <= results.len(),
            all == results.deep_view(),
            total_files(all) <= usize::MAX,
            objects.deep_view() == json_objects(all.take(i as int)),
            file_count == total_files(all.take(i as int)),
        decreases results.len() - i,
    {
        proof {
            assert(all.take(i + 1).drop_last() =~= all.take(i as int));
            lemma_total_files_monotonic(all, i + 1);
        }
        push_line(&mut objects, format_json_single(&results[i]));
        let files = match results[i].file_count {
            Some(n) => n,
            None => 1,
        };
        file_count = file_count + files;
        i = i + 1;
        assert(objects.deep_view() =~= json_objects(all.take(i as int)));
    }
    assert(all.take(i as int) =~= all);
    let mut text = String::new();
    text.append("{\"files\":[");
    let list = join(&objects, ",");
    text.append(list.as_str());
    text.append("],\"total\":{\"file_count\":");
    push_decimal(&mut text, file_count);
    text.append(",");
    push_json_metrics(&mut text, total);
    text.append("}}");
    assert(text@ =~= json_multiple(all, total@));
    text
}

/// The totals block: header, then the selected metrics.
pub fn format_total_output(file_count: usize, count: &Count, args: &Args) -> (text: String)
    ensures
        text@ == total_text(file_count as nat, count@, *args),
{
    let mut header = String::new();
    push_icon(&mut header, DIR_ICON, args.no_color);
    header.append("Total ");
    push_file_count_label(&mut header, file_count);
    assert(header@ =~= total_header(file_count as nat, args.no_color));
    let mut lines: Vec<String> = Vec::new();
    assert(lines.deep_view() =~= Seq::<Seq<char>>::empty());
    push_line(&mut lines, header);
    push_count_lines(&mut lines, count, args);
    assert(lines.deep_view() =~= seq![total_header(file_count as nat, args.no_color)]
        + count_lines(count@, *args));
    join(&lines, "\n")
}

} // verus!
