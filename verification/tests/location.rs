use acta::path::fit_location;
use acta::Formatter;

#[test]
fn smart_truncate_short_path() {
    let mut fmt = Formatter::new();
    fmt.path_width = 20;
    let result = fmt.format_path("foo.rs", 10);
    assert_eq!(result.len(), 20);
    assert!(result.contains("foo.rs:10"));
}

#[test]
fn smart_truncate_exact_width() {
    let mut fmt = Formatter::new();
    fmt.path_width = 8;
    let result = fmt.format_path("foo.rs", 1);
    assert_eq!(result.as_str(), "foo.rs:1");
}

#[test]
fn smart_truncate_overflow() {
    let mut fmt = Formatter::new();
    fmt.path_width = 15;
    let result = fmt.format_path("very/long/path/file.rs", 999);
    assert!(result.len() <= 15);
}

#[test]
fn smart_truncate_trailing_slash_before_filename() {
    let mut fmt = Formatter::new();
    fmt.path_width = 20;
    let result = fmt.format_path("dir/subdir/file.rs", 42);
    assert!(result.len() <= 20);
    assert!(result.contains("file.rs:42"));
}

#[test]
fn smart_truncate_file_part_too_long() {
    let mut fmt = Formatter::new();
    fmt.path_width = 15;
    let result = fmt.format_path("very_very_long_filename_test.rs", 10);
    assert!(
        result.len() <= 18,
        "result='{}', len={}",
        result,
        result.len()
    );
    assert!(result.starts_with('\u{2026}'));
}

#[test]
fn format_path_strips_src() {
    let mut fmt = Formatter::new();
    fmt.path_width = 20;
    let result = fmt.format_path("C:\\project\\src\\lib.rs", 42);
    assert!(result.contains("lib.rs:42"));
    assert!(!result.contains("src/"));
}

#[test]
fn format_path_right_aligned_no_truncation() {
    let mut fmt = Formatter::new();
    fmt.path_width = 40;
    let result = fmt.format_path("src/lib.rs", 10);
    assert!(
        !result.contains('\u{2026}'),
        "expected no ellipsis: {result}"
    );
    assert_eq!(result.len(), 40);
    assert!(
        result.ends_with("lib.rs:10"),
        "expected to end with stripped path: {result}"
    );
}

#[test]
fn format_path_dir_truncation_preserves_filename() {
    let mut fmt = Formatter::new();
    fmt.path_width = 28;
    let result = fmt.format_path("very/long/deeply/nested/dir/file.rs", 42);
    assert!(
        result.contains("file.rs:42"),
        "expected filename preserved: {result}"
    );
    assert!(
        !result.contains('\u{2026}'),
        "expected no leading ellipsis in dir truncation: {result}"
    );
    assert!(result.len() <= 28);
}

#[test]
fn format_path_windows_normalization() {
    let mut fmt = Formatter::new();
    fmt.path_width = 40;
    let result = fmt.format_path(r"C:\project\src\module\file.rs", 7);
    assert!(
        !result.contains('\\'),
        "expected backslashes normalized: {result}"
    );
    assert!(
        result.contains("module/file.rs:7"),
        "expected normalized src path: {result}"
    );
}

#[test]
fn format_path_leading_ellipsis_for_very_long_path() {
    let mut fmt = Formatter::new();
    fmt.path_width = 11;
    let result = fmt.format_path("/very/long/prefix/deep/nested/dirs/file.rs", 99);
    assert!(
        result.starts_with('\u{2026}'),
        "expected leading ellipsis: {result}"
    );
    assert!(
        result.contains("file.rs:99"),
        "expected filename preserved: {result}"
    );
}

#[test]
fn format_path_file_with_line_branch_no_ellipsis() {
    let mut fmt = Formatter::new();
    fmt.path_width = 16;
    let result = fmt.format_path("src/main.rs", 1);
    assert!(
        result.contains("main.rs:1"),
        "expected stripped path: {result}"
    );
    assert!(!result.contains('\u{2026}'));
    assert_eq!(result.len(), 16);
}

#[test]
fn format_path_unicode_char_boundary_safe() {
    let mut fmt = Formatter::new();
    fmt.path_width = 12;
    let result = fmt.format_path("src/\u{6a21}\u{5757}/\u{6587}\u{4ef6}.rs", 10);
    assert!(std::str::from_utf8(result.as_bytes()).is_ok());
    assert!(
        result.contains("\u{4ef6}.rs:10") || result.contains("\u{6587}\u{4ef6}.rs:10"),
        "expected filename suffix preserved: {result}"
    );
}

#[test]
fn layouts_are_exact() {
    assert_eq!(fit_location("foo.rs", 10, 12), "   foo.rs:10");
    assert_eq!(fit_location("dir/subdir/file.rs", 42, 20), "   subdir/file.rs:42");
    assert_eq!(fit_location("very/long/deeply/nested/dir/file.rs", 42, 28), "deeply/nested/dir/file.rs:42");
    assert_eq!(fit_location("very/long/path/file.rs", 999, 15), "ath/file.rs:999");
    assert_eq!(fit_location("very_very_long_filename_test.rs", 10, 15), "\u{2026}ame_test.rs:10");
    let r = fit_location("/a/src/b/src/c.rs", 5, 40);
    assert_eq!(r.len(), 40);
    assert_eq!(r.trim_start(), "b/src/c.rs:5");
}

#[test]
fn empty_column_gives_only_the_ellipsis() {
    assert_eq!(fit_location("a.rs", 1, 0), "\u{2026}");
    assert_eq!(fit_location("a.rs", 1, 1), "\u{2026}");
    assert_eq!(fit_location("a.rs", 1, 2), "\u{2026}1");
}

#[test]
fn ascii_locations_fill_the_column_exactly() {
    for width in 1..40usize {
        for (file, line) in [("a.rs", 3u32), ("src/fmt/mod.rs", 250), ("very/long/directory/name/file_name.rs", 12345)] {
            let r = fit_location(file, line, width);
            assert_eq!(r.chars().count(), width, "{file}:{line} at {width}: {r:?}");
            assert!(r.len() <= width + 2);
            if width >= 2 + line.to_string().len() {
                assert!(r.ends_with(&format!(":{line}")), "{file}:{line} at {width}: {r:?}");
            }
        }
    }
}

#[test]
fn ellipsis_only_when_the_file_name_does_not_fit() {
    assert_eq!(fit_location("some/dir/file.rs", 9, 14), " dir/file.rs:9");
    assert_eq!(fit_location("some/dir/file.rs", 9, 12), "ir/file.rs:9");
    assert_eq!(fit_location("some/dir/file.rs", 9, 11), "r/file.rs:9");
    let r = fit_location("some/dir/file.rs", 9, 10);
    assert_eq!(r, "\u{2026}file.rs:9");
}
