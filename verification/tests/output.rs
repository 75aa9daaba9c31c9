use ewc::cli::Args;
use ewc::counter::{Count, FileEntry};
use ewc::output::{
    escape_json, format_compact_counts, format_compact_output, format_compact_total,
    format_count_lines, format_header, format_json_multiple, format_json_single, format_number,
    format_output, format_separator, format_single_count, format_total_output,
    format_verbose_entry, format_verbose_output, pluralize_files, JsonFileResult, OutputKind,
};

fn default_args() -> Args {
    Args {
        files: vec![],
        lines: false,
        words: false,
        bytes: false,
        max_line_length: false,
        no_color: false,
        all: false,
        compact: false,
        verbose: false,
        json: false,
        exclude_patterns: vec![],
        include_patterns: vec![],
    }
}

fn sample() -> Count {
    Count {
        lines: 50,
        words: 200,
        bytes: 1500,
        max_line_length: 80,
    }
}

#[test]
fn format_number_without_comma() {
    assert_eq!(format_number(123), "123");
}

#[test]
fn format_number_with_comma() {
    assert_eq!(format_number(1234), "1,234");
}

#[test]
fn format_number_large() {
    assert_eq!(format_number(1234567), "1,234,567");
}

#[test]
fn format_number_edges() {
    assert_eq!(format_number(0), "0");
    assert_eq!(format_number(9), "9");
    assert_eq!(format_number(10), "10");
    assert_eq!(format_number(999), "999");
    assert_eq!(format_number(1000), "1,000");
    assert_eq!(format_number(1001), "1,001");
    assert_eq!(format_number(100000), "100,000");
    assert_eq!(format_number(1000000), "1,000,000");
    assert_eq!(format_number(12005070), "12,005,070");
    assert_eq!(
        format_number(18446744073709551615),
        "18,446,744,073,709,551,615"
    );
}

#[test]
fn format_file_output_all_counts() {
    let count = Count {
        lines: 50,
        words: 200,
        bytes: 1500,
        max_line_length: 80,
    };
    let args = default_args();
    let output = format_output("file.txt", &count, OutputKind::File, &args);
    assert!(output.contains("file.txt"));
    assert!(output.contains("Lines:"));
    assert!(output.contains("50"));
    assert!(output.contains("Words:"));
    assert!(output.contains("200"));
    assert!(output.contains("Bytes:"));
    assert!(output.contains("1,500"));
}

#[test]
fn format_file_output_lines_only() {
    let count = Count {
        lines: 50,
        words: 200,
        bytes: 1500,
        max_line_length: 80,
    };
    let args = Args {
        lines: true,
        ..default_args()
    };
    let output = format_output("file.txt", &count, OutputKind::File, &args);
    assert!(output.contains("Lines:"));
    assert!(!output.contains("Words:"));
    assert!(!output.contains("Bytes:"));
}

#[test]
fn format_separator_test() {
    let sep = format_separator();
    assert!(sep.contains("─"));
    assert_eq!(sep.chars().count(), 25);
}

#[test]
fn format_total_output_all_counts() {
    let count = Count {
        lines: 80,
        words: 300,
        bytes: 2300,
        max_line_length: 120,
    };
    let args = default_args();
    let output = format_total_output(2, &count, &args);
    assert!(output.contains("Total (2 files)"));
    assert!(output.contains("Lines:"));
    assert!(output.contains("80"));
    assert!(output.contains("Words:"));
    assert!(output.contains("300"));
    assert!(output.contains("Bytes:"));
    assert!(output.contains("2,300"));
}

#[test]
fn format_total_pluralization() {
    let count = Count::default();
    let args = default_args();
    let output_single = format_total_output(1, &count, &args);
    assert!(output_single.contains("1 file)"));

    let output_plural = format_total_output(2, &count, &args);
    assert!(output_plural.contains("2 files)"));
}

#[test]
fn format_total_output_lines_only() {
    let count = Count {
        lines: 80,
        words: 300,
        bytes: 2300,
        max_line_length: 120,
    };
    let args = Args {
        lines: true,
        ..default_args()
    };
    let output = format_total_output(2, &count, &args);
    assert!(output.contains("Lines:"));
    assert!(!output.contains("Words:"));
    assert!(!output.contains("Bytes:"));
}

#[test]
fn format_directory_output_all_counts() {
    let count = Count {
        lines: 1234,
        words: 5678,
        bytes: 45000,
        max_line_length: 200,
    };
    let args = default_args();
    let output = format_output("src/", &count, OutputKind::Directory(5), &args);
    assert!(output.contains("\u{1F4C1} src/ (5 files)"));
    assert!(output.contains("Lines:"));
    assert!(output.contains("1,234"));
    assert!(output.contains("Words:"));
    assert!(output.contains("5,678"));
    assert!(output.contains("Bytes:"));
    assert!(output.contains("45,000"));
}

#[test]
fn format_directory_output_single_file() {
    let count = Count {
        lines: 10,
        words: 20,
        bytes: 100,
        max_line_length: 50,
    };
    let args = default_args();
    let output = format_output("dir/", &count, OutputKind::Directory(1), &args);
    assert!(output.contains("\u{1F4C1} dir/ (1 file)"));
}

#[test]
fn format_output_without_icons() {
    let count = Count {
        lines: 50,
        words: 200,
        bytes: 1500,
        max_line_length: 80,
    };
    let args = Args {
        no_color: true,
        ..default_args()
    };
    let output = format_output("file.txt", &count, OutputKind::File, &args);
    assert!(!output.contains("\u{1F4C4}")); // No file icon
    assert!(output.contains("file.txt"));
}

#[test]
fn format_directory_output_without_icons() {
    let count = Count {
        lines: 50,
        words: 200,
        bytes: 1500,
        max_line_length: 80,
    };
    let args = Args {
        no_color: true,
        ..default_args()
    };
    let output = format_output("src/", &count, OutputKind::Directory(3), &args);
    assert!(!output.contains("\u{1F4C1}")); // No folder icon
    assert!(output.contains("src/"));
}

#[test]
fn format_total_output_without_icons() {
    let count = Count {
        lines: 80,
        words: 300,
        bytes: 2300,
        max_line_length: 120,
    };
    let args = Args {
        no_color: true,
        ..default_args()
    };
    let output = format_total_output(2, &count, &args);
    assert!(!output.contains("\u{1F4C1}")); // No folder icon
    assert!(output.contains("Total (2 files)"));
}

#[test]
fn format_compact_output_all_counts() {
    let count = Count {
        lines: 50,
        words: 200,
        bytes: 1500,
        max_line_length: 80,
    };
    let args = Args {
        compact: true,
        ..default_args()
    };
    let output = format_compact_output("file.txt", &count, OutputKind::File, &args);
    assert!(output.contains("file.txt:"));
    assert!(output.contains("50 lines"));
    assert!(output.contains("200 words"));
    assert!(output.contains("1,500 bytes"));
    assert_eq!(output.lines().count(), 1);
}

#[test]
fn format_compact_output_lines_only() {
    let count = Count {
        lines: 50,
        words: 200,
        bytes: 1500,
        max_line_length: 80,
    };
    let args = Args {
        lines: true,
        compact: true,
        ..default_args()
    };
    let output = format_compact_output("file.txt", &count, OutputKind::File, &args);
    assert!(output.contains("50 lines"));
    assert!(!output.contains("words"));
    assert!(!output.contains("bytes"));
}

#[test]
fn format_compact_directory() {
    let count = Count {
        lines: 150,
        words: 500,
        bytes: 3000,
        max_line_length: 100,
    };
    let args = Args {
        compact: true,
        ..default_args()
    };
    let output = format_compact_output("src/", &count, OutputKind::Directory(3), &args);
    assert!(output.contains("src/ (3 files):"));
    assert!(output.contains("150 lines"));
}

#[test]
fn format_compact_total_output() {
    let count = Count {
        lines: 235,
        words: 800,
        bytes: 5000,
        max_line_length: 150,
    };
    let args = Args {
        compact: true,
        ..default_args()
    };
    let output = format_compact_total(5, &count, &args);
    assert!(output.contains("Total (5 files):"));
    assert!(output.contains("235 lines"));
}

#[test]
fn format_output_max_line_length_only() {
    let count = Count {
        lines: 50,
        words: 200,
        bytes: 1500,
        max_line_length: 120,
    };
    let args = Args {
        max_line_length: true,
        ..default_args()
    };
    let output = format_output("file.txt", &count, OutputKind::File, &args);
    assert!(output.contains("Max Line:"));
    assert!(output.contains("120"));
    assert!(!output.contains("Lines:"));
    assert!(!output.contains("Words:"));
    assert!(!output.contains("Bytes:"));
}

#[test]
fn format_compact_with_max_line_length() {
    let count = Count {
        lines: 50,
        words: 200,
        bytes: 1500,
        max_line_length: 120,
    };
    let args = Args {
        max_line_length: true,
        compact: true,
        ..default_args()
    };
    let output = format_compact_output("file.txt", &count, OutputKind::File, &args);
    assert!(output.contains("max:120"));
    assert!(!output.contains("lines"));
}

#[test]
fn pluralize_files_one_and_many() {
    assert_eq!(pluralize_files(0), "files");
    assert_eq!(pluralize_files(1), "file");
    assert_eq!(pluralize_files(2), "files");
}

#[test]
fn format_header_exact() {
    assert_eq!(
        format_header("a.txt", OutputKind::File, false),
        "\u{1F4C4} a.txt"
    );
    assert_eq!(format_header("a.txt", OutputKind::File, true), "a.txt");
    assert_eq!(
        format_header("src", OutputKind::Directory(12), false),
        "\u{1F4C1} src (12 files)"
    );
    assert_eq!(
        format_header("src", OutputKind::Directory(1), true),
        "src (1 file)"
    );
    assert_eq!(
        format_header("src", OutputKind::Directory(1234), true),
        "src (1234 files)"
    );
}

#[test]
fn format_count_lines_exact() {
    let lines = format_count_lines(&sample(), &default_args());
    assert_eq!(
        lines,
        vec![
            "   Lines:         50".to_string(),
            "   Words:        200".to_string(),
            "   Bytes:      1,500".to_string(),
        ]
    );
    let all_four = Args {
        lines: true,
        words: true,
        bytes: true,
        max_line_length: true,
        ..default_args()
    };
    let lines = format_count_lines(&sample(), &all_four);
    assert_eq!(
        lines,
        vec![
            "Max Line:         80".to_string(),
            "   Lines:         50".to_string(),
            "   Words:        200".to_string(),
            "   Bytes:      1,500".to_string(),
        ]
    );
}

#[test]
fn format_count_lines_wide_number_is_not_cut() {
    let count = Count {
        lines: 1234567890123,
        words: 1234567,
        bytes: 12345678,
        max_line_length: 0,
    };
    let lines = format_count_lines(&count, &default_args());
    assert_eq!(lines[0], "   Lines: 1,234,567,890,123");
    assert_eq!(lines[1], "   Words:  1,234,567");
    assert_eq!(lines[2], "   Bytes: 12,345,678");
}

#[test]
fn format_output_exact() {
    let output = format_output("file.txt", &sample(), OutputKind::File, &default_args());
    assert_eq!(
        output,
        "\u{1F4C4} file.txt\n   Lines:         50\n   Words:        200\n   Bytes:      1,500"
    );
    let words = Args {
        words: true,
        no_color: true,
        ..default_args()
    };
    let output = format_output("d", &sample(), OutputKind::Directory(2), &words);
    assert_eq!(output, "d (2 files)\n   Words:        200");
}

#[test]
fn format_total_output_exact() {
    let output = format_total_output(3, &sample(), &default_args());
    assert_eq!(
        output,
        "\u{1F4C1} Total (3 files)\n   Lines:         50\n   Words:        200\n   Bytes:      1,500"
    );
}

#[test]
fn format_compact_exact() {
    let args = default_args();
    assert_eq!(
        format_compact_counts(&sample(), &args),
        "50 lines, 200 words, 1,500 bytes"
    );
    assert_eq!(
        format_compact_output("file.txt", &sample(), OutputKind::File, &args),
        "file.txt: 50 lines, 200 words, 1,500 bytes"
    );
    assert_eq!(
        format_compact_output("src", &sample(), OutputKind::Directory(3), &args),
        "src (3 files): 50 lines, 200 words, 1,500 bytes"
    );
    assert_eq!(
        format_compact_total(1, &sample(), &args),
        "Total (1 file): 50 lines, 200 words, 1,500 bytes"
    );
    let with_max = Args {
        max_line_length: true,
        bytes: true,
        ..default_args()
    };
    assert_eq!(
        format_compact_counts(&sample(), &with_max),
        "max:80, 1,500 bytes"
    );
}

#[test]
fn format_compact_directory_has_one_space_behind_the_colon() {
    let count = Count {
        lines: 150,
        words: 500,
        bytes: 3000,
        max_line_length: 100,
    };
    let args = Args {
        compact: true,
        ..default_args()
    };
    assert_eq!(
        format_compact_output("src/", &count, OutputKind::Directory(3), &args),
        "src/ (3 files): 150 lines, 500 words, 3,000 bytes"
    );
    assert_eq!(
        format_compact_output("src/", &count, OutputKind::Directory(1), &args),
        "src/ (1 file): 150 lines, 500 words, 3,000 bytes"
    );
    assert_eq!(
        format_compact_output("a.rs", &count, OutputKind::File, &args),
        "a.rs: 150 lines, 500 words, 3,000 bytes"
    );
}

#[test]
fn format_single_count_picks_one_metric() {
    let count = Count {
        lines: 1,
        words: 22,
        bytes: 3333,
        max_line_length: 44,
    };
    assert_eq!(format_single_count(&count, &default_args()), "1 lines");
    let words = Args {
        words: true,
        ..default_args()
    };
    assert_eq!(format_single_count(&count, &words), "22 words");
    let bytes = Args {
        bytes: true,
        ..default_args()
    };
    assert_eq!(format_single_count(&count, &bytes), "3,333 bytes");
    let max = Args {
        max_line_length: true,
        ..default_args()
    };
    assert_eq!(format_single_count(&count, &max), "44 max");
    let lines = Args {
        lines: true,
        ..default_args()
    };
    assert_eq!(format_single_count(&count, &lines), "1 lines");
    let two = Args {
        words: true,
        bytes: true,
        ..default_args()
    };
    assert_eq!(format_single_count(&count, &two), "1 lines");
}

#[test]
fn format_verbose_exact() {
    let entries = vec![
        FileEntry {
            path: "dir/a.txt".to_string(),
            count: Count {
                lines: 1,
                words: 2,
                bytes: 3,
                max_line_length: 4,
            },
        },
        FileEntry {
            path: "dir/b.txt".to_string(),
            count: Count {
                lines: 1000,
                words: 2,
                bytes: 3,
                max_line_length: 4,
            },
        },
    ];
    let total = Count {
        lines: 1001,
        words: 4,
        bytes: 6,
        max_line_length: 4,
    };
    assert_eq!(
        format_verbose_entry(&entries[0], &default_args()),
        "\u{1F4C4} dir/a.txt  1 lines"
    );
    let output = format_verbose_output(&entries, &total, &default_args());
    assert_eq!(
        output,
        "\u{1F4C4} dir/a.txt  1 lines\n\u{1F4C4} dir/b.txt  1,000 lines\n─────────────────────────\n\u{1F4C1} Total (2 files)  1,001 lines"
    );
    let plain = Args {
        no_color: true,
        words: true,
        ..default_args()
    };
    let output = format_verbose_output(&entries[..1].iter().map(|e| FileEntry { path: e.path.clone(), count: e.count }).collect(), &entries[0].count, &plain);
    assert_eq!(
        output,
        "dir/a.txt  2 words\n─────────────────────────\nTotal (1 file)  2 words"
    );
    let none: Vec<FileEntry> = vec![];
    let output = format_verbose_output(&none, &Count::default(), &plain);
    assert_eq!(
        output,
        "─────────────────────────\nTotal (0 files)  0 words"
    );
}

#[test]
fn escape_json_escapes_five_characters() {
    assert_eq!(escape_json("plain"), "plain");
    assert_eq!(escape_json(""), "");
    assert_eq!(escape_json("a\\b"), "a\\\\b");
    assert_eq!(escape_json("say \"hi\""), "say \\\"hi\\\"");
    assert_eq!(escape_json("a\nb\rc\td"), "a\\nb\\rc\\td");
    assert_eq!(escape_json("\\n"), "\\\\n");
    assert_eq!(escape_json("é/あ"), "é/あ");
}

#[test]
fn format_json_single_file_and_directory() {
    let file = JsonFileResult {
        name: "a \"b\".txt".to_string(),
        count: Count {
            lines: 1,
            words: 2,
            bytes: 12,
            max_line_length: 11,
        },
        is_directory: false,
        file_count: None,
    };
    assert_eq!(
        format_json_single(&file),
        "{\"file\":\"a \\\"b\\\".txt\",\"lines\":1,\"words\":2,\"bytes\":12,\"max_line_length\":11}"
    );
    let dir = JsonFileResult {
        name: "src".to_string(),
        count: Count {
            lines: 1000,
            words: 2000,
            bytes: 30000,
            max_line_length: 99,
        },
        is_directory: true,
        file_count: Some(7),
    };
    assert_eq!(
        format_json_single(&dir),
        "{\"directory\":\"src\",\"file_count\":7,\"lines\":1000,\"words\":2000,\"bytes\":30000,\"max_line_length\":99}"
    );
    let unknown = JsonFileResult {
        name: "d".to_string(),
        count: Count::default(),
        is_directory: true,
        file_count: None,
    };
    assert_eq!(
        format_json_single(&unknown),
        "{\"directory\":\"d\",\"file_count\":0,\"lines\":0,\"words\":0,\"bytes\":0,\"max_line_length\":0}"
    );
}

#[test]
fn format_json_multiple_sums_file_counts() {
    let results = vec![
        JsonFileResult {
            name: "a".to_string(),
            count: Count {
                lines: 1,
                words: 1,
                bytes: 2,
                max_line_length: 1,
            },
            is_directory: false,
            file_count: None,
        },
        JsonFileResult {
            name: "d".to_string(),
            count: Count {
                lines: 2,
                words: 3,
                bytes: 10,
                max_line_length: 5,
            },
            is_directory: true,
            file_count: Some(4),
        },
    ];
    let total = Count {
        lines: 3,
        words: 4,
        bytes: 12,
        max_line_length: 5,
    };
    assert_eq!(
        format_json_multiple(&results, &total),
        "{\"files\":[{\"file\":\"a\",\"lines\":1,\"words\":1,\"bytes\":2,\"max_line_length\":1},{\"directory\":\"d\",\"file_count\":4,\"lines\":2,\"words\":3,\"bytes\":10,\"max_line_length\":5}],\"total\":{\"file_count\":5,\"lines\":3,\"words\":4,\"bytes\":12,\"max_line_length\":5}}"
    );
    let none: Vec<JsonFileResult> = vec![];
    assert_eq!(
        format_json_multiple(&none, &Count::default()),
        "{\"files\":[],\"total\":{\"file_count\":0,\"lines\":0,\"words\":0,\"bytes\":0,\"max_line_length\":0}}"
    );
}
