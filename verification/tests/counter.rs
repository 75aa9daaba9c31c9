use ewc::counter::{
    count_directory, count_directory_detailed, is_whitespace, Count, FileEntry, FileRead,
    FilterConfig, FilterError,
};
use ewc::walk::PathFilter;

#[test]
fn count_empty_string() {
    let count = Count::from_content("");
    assert_eq!(count.lines, 0);
    assert_eq!(count.words, 0);
    assert_eq!(count.bytes, 0);
    assert_eq!(count.max_line_length, 0);
}

#[test]
fn count_single_line() {
    let count = Count::from_content("hello");
    assert_eq!(count.lines, 1);
    assert_eq!(count.words, 1);
    assert_eq!(count.bytes, 5);
    assert_eq!(count.max_line_length, 5);
}

#[test]
fn count_multiple_lines() {
    let count = Count::from_content("hello\nworld");
    assert_eq!(count.lines, 2);
    assert_eq!(count.words, 2);
    assert_eq!(count.bytes, 11);
    assert_eq!(count.max_line_length, 5);
}

#[test]
fn count_multiple_words() {
    let count = Count::from_content("hello world");
    assert_eq!(count.lines, 1);
    assert_eq!(count.words, 2);
    assert_eq!(count.bytes, 11);
}

#[test]
fn count_multibyte_characters() {
    // "あ" is 3 bytes in UTF-8
    let count = Count::from_content("あ");
    assert_eq!(count.bytes, 3);
}

#[test]
fn count_from_content_combined() {
    let count = Count::from_content("hello world\nfoo bar");
    assert_eq!(count.lines, 2);
    assert_eq!(count.words, 4);
    assert_eq!(count.bytes, 19);
}

#[test]
fn count_default() {
    let count = Count::default();
    assert_eq!(count.lines, 0);
    assert_eq!(count.words, 0);
    assert_eq!(count.bytes, 0);
    assert_eq!(count.max_line_length, 0);
}

#[test]
fn count_max_line_length_varies() {
    let count = Count::from_content("short\nlonger line here\nmed");
    assert_eq!(count.max_line_length, 16); // "longer line here"
}

#[test]
fn count_add() {
    let count1 = Count {
        lines: 10,
        words: 50,
        bytes: 200,
        max_line_length: 80,
    };
    let count2 = Count {
        lines: 5,
        words: 25,
        bytes: 100,
        max_line_length: 120,
    };
    let total = count1 + count2;
    assert_eq!(total.lines, 15);
    assert_eq!(total.words, 75);
    assert_eq!(total.bytes, 300);
    assert_eq!(total.max_line_length, 120); // Takes max of the two
}

#[test]
fn count_scenario_two_lines_four_words() {
    let count = Count::from_content("hello world\nfoo bar");
    assert_eq!(
        count,
        Count {
            lines: 2,
            words: 4,
            bytes: 19,
            max_line_length: 11,
        }
    );
}

#[test]
fn count_trailing_newline_adds_no_line() {
    assert_eq!(Count::from_content("a\n").lines, 1);
    assert_eq!(Count::from_content("a\nb\n").lines, 2);
    assert_eq!(Count::from_content("\n").lines, 1);
    assert_eq!(Count::from_content("\n\n").lines, 2);
    assert_eq!(Count::from_content("\n\nx").lines, 3);
    assert_eq!(Count::from_content("\n").max_line_length, 0);
}

#[test]
fn count_carriage_return_before_line_feed_is_no_part_of_the_line() {
    let count = Count::from_content("ab\r\ncdef\r\n");
    assert_eq!(count.lines, 2);
    assert_eq!(count.max_line_length, 4);
    assert_eq!(count.bytes, 10);
    // a carriage return that no line feed follows stays in its line
    let count = Count::from_content("ab\r");
    assert_eq!(count.lines, 1);
    assert_eq!(count.max_line_length, 3);
    let count = Count::from_content("ab\rcd\nx");
    assert_eq!(count.lines, 2);
    assert_eq!(count.max_line_length, 5);
    let count = Count::from_content("\r\n");
    assert_eq!(count.lines, 1);
    assert_eq!(count.max_line_length, 0);
    let count = Count::from_content("a\r\r\n");
    assert_eq!(count.max_line_length, 2);
}

#[test]
fn count_longest_line_in_characters_not_bytes() {
    let count = Count::from_content("あいう\nab");
    assert_eq!(count.lines, 2);
    assert_eq!(count.words, 2);
    assert_eq!(count.bytes, 12);
    assert_eq!(count.max_line_length, 3);
    let count = Count::from_content("héllo wörld");
    assert_eq!(count.bytes, 13);
    assert_eq!(count.max_line_length, 11);
    assert_eq!(count.words, 2);
    let count = Count::from_content("😀😀");
    assert_eq!(count.bytes, 8);
    assert_eq!(count.max_line_length, 2);
    assert_eq!(count.words, 1);
}

#[test]
fn count_words_split_at_any_white_space() {
    assert_eq!(Count::from_content("  a  b\t\tc\n\nd  ").words, 4);
    assert_eq!(Count::from_content("   \t\n ").words, 0);
    assert_eq!(Count::from_content("a\u{a0}b").words, 2);
    assert_eq!(Count::from_content("a\u{3000}b\u{2003}c\u{85}d\u{1680}e").words, 5);
    assert_eq!(Count::from_content("a\u{2028}b\u{2029}c\u{202f}d\u{205f}e").words, 5);
    assert_eq!(Count::from_content("a\u{b}b\u{c}c").words, 3);
    // neither the zero width space nor the Mongolian vowel separator is white space
    assert_eq!(Count::from_content("a\u{200b}b").words, 1);
    assert_eq!(Count::from_content("a\u{180e}b").words, 1);
}

#[test]
fn is_whitespace_agrees_with_char_is_whitespace() {
    let mut code = 0u32;
    while code <= 0x10FFFF {
        if let Some(c) = char::from_u32(code) {
            assert_eq!(is_whitespace(c), c.is_whitespace(), "U+{:04X}", code);
        }
        code += 1;
    }
}

#[test]
fn from_content_agrees_with_str_iterators() {
    let samples = [
        "",
        "a",
        "\n",
        "a\n",
        "a\nb",
        "a\r\nb\r\n",
        "a\r",
        "\r",
        "\r\r\n\r",
        " lead and trail \n\n\n  x  ",
        "tabs\tand\u{a0}more\u{3000}here\n",
        "あいう えお\nかきく\r\n",
        "one two  three\n\nfour\r\n\r\nfive\rsix",
    ];
    for text in samples {
        let count = Count::from_content(text);
        assert_eq!(count.lines, text.lines().count(), "lines of {:?}", text);
        assert_eq!(count.words, text.split_whitespace().count(), "words of {:?}", text);
        assert_eq!(count.bytes, text.len(), "bytes of {:?}", text);
        assert_eq!(
            count.max_line_length,
            text.lines().map(|l| l.chars().count()).max().unwrap_or(0),
            "longest line of {:?}",
            text
        );
    }
}

#[test]
fn count_checked_add_and_add_assign() {
    let a = Count {
        lines: 1,
        words: 2,
        bytes: 3,
        max_line_length: 9,
    };
    let b = Count {
        lines: 10,
        words: 20,
        bytes: 30,
        max_line_length: 4,
    };
    let expected = Count {
        lines: 11,
        words: 22,
        bytes: 33,
        max_line_length: 9,
    };
    assert_eq!(a.checked_add(b), Some(expected));
    let mut c = a;
    c.add_assign(b);
    assert_eq!(c, expected);
    let big = Count {
        lines: usize::MAX,
        words: 0,
        bytes: 0,
        max_line_length: 0,
    };
    assert_eq!(big.checked_add(a), None);
    assert_eq!(big.checked_add(Count::default()), Some(big));
    let wide = Count {
        lines: 0,
        words: 0,
        bytes: 0,
        max_line_length: usize::MAX,
    };
    assert_eq!(wide.checked_add(wide), Some(wide));
    let full = Count {
        lines: 0,
        words: 1,
        bytes: usize::MAX,
        max_line_length: 0,
    };
    assert_eq!(full.checked_add(a), None);
    let wordy = Count {
        lines: 0,
        words: usize::MAX,
        bytes: 0,
        max_line_length: 0,
    };
    assert_eq!(wordy.checked_add(a), None);
}

#[test]
fn count_sum_merges_all() {
    let entries = vec![
        FileEntry {
            path: "a".to_string(),
            count: Count::from_content("one\n"),
        },
        FileEntry {
            path: "b".to_string(),
            count: Count::from_content("two three\nfour\n"),
        },
    ];
    assert_eq!(
        Count::sum(&entries),
        Count {
            lines: 3,
            words: 4,
            bytes: 19,
            max_line_length: 9,
        }
    );
    let none: Vec<FileEntry> = vec![];
    assert_eq!(Count::sum(&none), Count::default());
}

#[test]
fn file_read_measures_content_where_there_is_any() {
    let read = FileRead::new("a.txt".to_string(), Some("hello world\nfoo bar\n"));
    assert_eq!(read.path, "a.txt");
    assert_eq!(
        read.count,
        Some(Count {
            lines: 2,
            words: 4,
            bytes: 20,
            max_line_length: 11,
        })
    );
    let missing = FileRead::new("nonexistent_file.txt".to_string(), None);
    assert_eq!(missing.path, "nonexistent_file.txt");
    assert_eq!(missing.count, None);
}

// A directory tree held in memory: the paths of its files below the root,
// separated by `/`, with their content. The walk below asks the filter what a
// walk of the real tree asks it: whether each entry on the way to a file is
// entered, and whether the file's relative path is kept.
fn walk(root: &str, files: &[(&str, &str)], config: &FilterConfig) -> Result<Vec<FileRead>, FilterError> {
    let filter = PathFilter::new(config)?;
    let mut reads = Vec::new();
    for (relative, content) in files {
        let names: Vec<&str> = relative.split('/').collect();
        let reached = names
            .iter()
            .enumerate()
            .all(|(above, name)| filter.enters(above + 1, Some(name)));
        if reached && filter.accepts(relative) {
            reads.push(FileRead::new(format!("{root}/{relative}"), Some(content)));
        }
    }
    Ok(reads)
}

fn count_tree(files: &[(&str, &str)], config: &FilterConfig) -> Result<(Count, usize), FilterError> {
    let reads = walk("/tmp/dir", files, config)?;
    Ok(count_directory(&reads))
}

fn default_config() -> FilterConfig {
    FilterConfig::default()
}

fn config_with_hidden() -> FilterConfig {
    FilterConfig::new(true, vec![], vec![])
}

#[test]
fn count_directory_with_single_file() {
    let result = count_tree(&[("test.txt", "hello world\n")], &default_config());
    assert!(result.is_ok());
    let (count, file_count) = result.unwrap();
    assert_eq!(file_count, 1);
    assert_eq!(count.lines, 1);
    assert_eq!(count.words, 2);
}

#[test]
fn count_directory_with_multiple_files() {
    let result = count_tree(
        &[("file1.txt", "hello\n"), ("file2.txt", "world\n")],
        &default_config(),
    );
    assert!(result.is_ok());
    let (count, file_count) = result.unwrap();
    assert_eq!(file_count, 2);
    assert_eq!(count.lines, 2);
    assert_eq!(count.words, 2);
}

#[test]
fn count_directory_recursive() {
    let result = count_tree(
        &[("root.txt", "root\n"), ("subdir/nested.txt", "nested file\n")],
        &default_config(),
    );
    assert!(result.is_ok());
    let (count, file_count) = result.unwrap();
    assert_eq!(file_count, 2);
    assert_eq!(count.lines, 2);
    assert_eq!(count.words, 3); // "root" + "nested file"
}

#[test]
fn count_directory_excludes_hidden_files() {
    let result = count_tree(
        &[("visible.txt", "visible\n"), (".hidden", "hidden\n")],
        &default_config(),
    );
    assert!(result.is_ok());
    let (count, file_count) = result.unwrap();
    assert_eq!(file_count, 1); // Only visible file
    assert_eq!(count.words, 1); // Only "visible"
}

#[test]
fn count_directory_excludes_hidden_directories() {
    let result = count_tree(
        &[
            ("visible.txt", "visible\n"),
            (".hidden_dir/nested.txt", "nested in hidden\n"),
        ],
        &default_config(),
    );
    assert!(result.is_ok());
    let (count, file_count) = result.unwrap();
    assert_eq!(file_count, 1); // Only visible file
    assert_eq!(count.words, 1); // Only "visible"
}

#[test]
fn count_directory_includes_hidden_files_when_all() {
    let result = count_tree(
        &[("visible.txt", "visible\n"), (".hidden", "hidden\n")],
        &config_with_hidden(),
    );
    assert!(result.is_ok());
    let (count, file_count) = result.unwrap();
    assert_eq!(file_count, 2); // Both files
    assert_eq!(count.words, 2); // "visible" + "hidden"
}

#[test]
fn count_directory_includes_hidden_directories_when_all() {
    let result = count_tree(
        &[
            ("visible.txt", "visible\n"),
            (".hidden_dir/nested.txt", "nested in hidden\n"),
        ],
        &config_with_hidden(),
    );
    assert!(result.is_ok());
    let (count, file_count) = result.unwrap();
    assert_eq!(file_count, 2); // Both files
    assert_eq!(count.words, 4); // "visible" + "nested in hidden"
}

#[test]
fn count_directory_detailed_returns_file_entries() {
    let reads = walk(
        "/tmp/dir",
        &[("file1.txt", "hello world\n"), ("file2.txt", "foo\n")],
        &default_config(),
    )
    .unwrap();
    let (entries, total) = count_directory_detailed(&reads);

    assert_eq!(entries.len(), 2);
    assert_eq!(total.lines, 2);
    assert_eq!(total.words, 3); // "hello world" + "foo"
}

#[test]
fn count_directory_detailed_sorted_by_path() {
    // Files found in non-alphabetical order
    let reads = walk(
        "/tmp/dir",
        &[("z_file.txt", "z\n"), ("a_file.txt", "a\n"), ("m_file.txt", "m\n")],
        &default_config(),
    )
    .unwrap();
    let (entries, _) = count_directory_detailed(&reads);

    // Should be sorted alphabetically
    assert!(entries[0].path.contains("a_file"));
    assert!(entries[1].path.contains("m_file"));
    assert!(entries[2].path.contains("z_file"));
}

#[test]
fn count_directory_exclude_pattern() {
    let config = FilterConfig::new(false, vec!["*.md".to_string()], vec![]);
    let result = count_tree(
        &[
            ("file.rs", "rust code\n"),
            ("file.md", "markdown\n"),
            ("file.txt", "text\n"),
        ],
        &config,
    );
    assert!(result.is_ok());
    let (count, file_count) = result.unwrap();
    assert_eq!(file_count, 2); // .rs and .txt only
    assert_eq!(count.words, 3); // "rust code" + "text"
}

#[test]
fn count_directory_include_pattern() {
    let config = FilterConfig::new(false, vec![], vec!["*.rs".to_string()]);
    let result = count_tree(
        &[
            ("file.rs", "rust code\n"),
            ("file.md", "markdown\n"),
            ("file.txt", "text\n"),
        ],
        &config,
    );
    assert!(result.is_ok());
    let (count, file_count) = result.unwrap();
    assert_eq!(file_count, 1); // .rs only
    assert_eq!(count.words, 2); // "rust code"
}

#[test]
fn count_directory_exclude_and_include_pattern() {
    // Keep only .rs files, but leave out test_*.rs
    let config = FilterConfig::new(
        false,
        vec!["test_*.rs".to_string()],
        vec!["*.rs".to_string()],
    );
    let result = count_tree(
        &[
            ("main.rs", "main\n"),
            ("lib.rs", "lib\n"),
            ("test_main.rs", "test\n"),
            ("file.txt", "text\n"),
        ],
        &config,
    );
    assert!(result.is_ok());
    let (count, file_count) = result.unwrap();
    assert_eq!(file_count, 2); // main.rs and lib.rs only
    assert_eq!(count.words, 2); // "main" + "lib"
}

#[test]
fn count_directory_exclude_directory_pattern() {
    let config = FilterConfig::new(false, vec!["target/*".to_string()], vec![]);
    let result = count_tree(
        &[("root.txt", "root\n"), ("target/build.txt", "build\n")],
        &config,
    );
    assert!(result.is_ok());
    let (count, file_count) = result.unwrap();
    assert_eq!(file_count, 1); // Only root.txt
    assert_eq!(count.words, 1); // "root"
}

#[test]
fn count_directory_multiple_exclude_patterns() {
    let config = FilterConfig::new(
        false,
        vec!["*.md".to_string(), "*.lock".to_string()],
        vec![],
    );
    let result = count_tree(
        &[
            ("file.rs", "rust\n"),
            ("file.md", "markdown\n"),
            ("file.txt", "text\n"),
            ("Cargo.lock", "lock\n"),
        ],
        &config,
    );
    assert!(result.is_ok());
    let (count, file_count) = result.unwrap();
    assert_eq!(file_count, 2); // .rs and .txt only
    assert_eq!(count.words, 2); // "rust" + "text"
}

#[test]
fn count_directory_of_nothing_is_zero() {
    let none: Vec<FileRead> = vec![];
    let (entries, total) = count_directory_detailed(&none);
    assert!(entries.is_empty());
    assert_eq!(total, Count::default());
    assert_eq!(count_directory(&none), (Count::default(), 0));
}

#[test]
fn count_directory_drops_unreadable_files() {
    let reads = vec![
        FileRead::new("d/b.txt".to_string(), Some("b b\n")),
        FileRead::new("d/gone.txt".to_string(), None),
        FileRead::new("d/a.txt".to_string(), Some("a\n")),
    ];
    let (entries, total) = count_directory_detailed(&reads);
    assert_eq!(entries.len(), 2);
    assert_eq!(entries[0].path, "d/a.txt");
    assert_eq!(entries[0].count, Count::from_content("a\n"));
    assert_eq!(entries[1].path, "d/b.txt");
    assert_eq!(entries[1].count, Count::from_content("b b\n"));
    assert_eq!(
        total,
        Count {
            lines: 2,
            words: 3,
            bytes: 6,
            max_line_length: 3,
        }
    );
    let all_gone = vec![FileRead::new("x".to_string(), None)];
    assert_eq!(count_directory(&all_gone), (Count::default(), 0));
}

#[test]
fn count_two_files_together() {
    let reads = vec![
        FileRead::new("one".to_string(), Some("line one\nline two\n")),
        FileRead::new("two".to_string(), Some("line three\n")),
    ];
    let (total, file_count) = count_directory(&reads);
    assert_eq!(file_count, 2);
    assert_eq!(total.lines, 3);
    assert_eq!(total.words, 6);
}
