use scoped_replace::level::{has_part, has_part_at, has_prefix, RustLevel};

#[test]
fn all_accepts_warnings_and_errors() {
    assert!(RustLevel::All.matches("warning: unused variable: `x`"));
    assert!(RustLevel::All.matches("error: expected one of `;` or `}`"));
    assert!(!RustLevel::All.matches("note: something else"));
    assert!(!RustLevel::All.matches(""));
}

#[test]
fn warning_filter_accepts_warnings_only() {
    assert!(RustLevel::Warning.matches("warning: unused import"));
    assert!(!RustLevel::Warning.matches("error: mismatched types"));
}

#[test]
fn error_filter_accepts_errors_only() {
    assert!(RustLevel::Error.matches("error: mismatched types"));
    assert!(!RustLevel::Error.matches("warning: unused import"));
}

#[test]
fn keyword_must_open_the_line() {
    assert!(!RustLevel::All.matches(" warning: indented"));
    assert!(!RustLevel::All.matches("warning:no space"));
    assert!(!RustLevel::All.matches("error"));
    assert!(!RustLevel::All.matches("a warning: inside"));
    assert!(RustLevel::All.matches("error: "));
}

#[test]
fn error_with_code_is_no_error_line() {
    assert!(!RustLevel::Error.matches("error[E0308]: mismatched types"));
}

#[test]
fn summary_line_is_never_accepted() {
    let line = "warning: 3 warnings generated, run `cargo fix` to apply them";
    assert!(!RustLevel::All.matches(line));
    assert!(!RustLevel::Warning.matches(line));
    assert!(!RustLevel::Error.matches(line));
    assert!(!RustLevel::All.matches("error: cargo fix was generated"));
}

#[test]
fn summary_needs_both_words() {
    assert!(RustLevel::All.matches("warning: `demo` (lib) generated 3 warnings"));
    assert!(RustLevel::All.matches("warning: run cargo fix"));
}

#[test]
fn prefix_and_part_of_bytes() {
    assert!(has_prefix(b"abcdef", b"abc"));
    assert!(has_prefix(b"abc", b""));
    assert!(!has_prefix(b"ab", b"abc"));
    assert!(!has_prefix(b"xbc", b"abc"));
    assert!(has_part(b"abcdef", b"def"));
    assert!(has_part(b"abcdef", b"cd"));
    assert!(has_part(b"", b""));
    assert!(!has_part(b"abcdef", b"ce"));
    assert!(!has_part(b"ab", b"abc"));
    assert!(has_part_at(b"abcdef", b"cd", 2));
    assert!(!has_part_at(b"abcdef", b"cd", 3));
    assert!(!has_part_at(b"abcdef", b"ef", 5));
    assert!(has_part_at(b"abcdef", b"", 6));
    assert!(!has_part_at(b"abcdef", b"", 7));
}
