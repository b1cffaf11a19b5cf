use scoped_replace::level::RustLevel;
use scoped_replace::pattern::Pattern;
use scoped_replace::position::Position;
use scoped_replace::position_matcher::{
    position_from_groups, position_from_line, positions_from_matches, PositionError,
    PositionMatcher, RegexPositionMatcher, RustPositionMatcher, LOCATION_PATTERN,
};

fn groups(texts: &[Option<&str>]) -> Vec<Option<String>> {
    texts.iter().map(|text| text.map(|t| t.to_string())).collect()
}

fn found(matcher: &impl PositionMatcher, input: &str) -> Vec<(String, Position)> {
    matcher
        .find_positions(input)
        .unwrap()
        .into_iter()
        .map(|position| (position.path, position.position))
        .collect()
}

#[test]
fn location_pattern_compiles() {
    assert!(Pattern::new(LOCATION_PATTERN).is_ok());
}

#[test]
fn diagnostic_reports_position_of_next_line() {
    let input = "warning: unused variable: `x`\n --> src/lib.rs:10:5\n  |\n";
    let matcher = RustPositionMatcher::new(RustLevel::All);
    assert_eq!(
        found(&matcher, input),
        vec![("src/lib.rs".to_string(), Position::LineColumn(10, 5))]
    );
}

#[test]
fn diagnostic_reports_every_block() {
    let input = "warning: unused\n --> src/lib.rs:10:5\n\nerror: broken\n --> src/main.rs:50:2\n";
    let matcher = RustPositionMatcher::new(RustLevel::All);
    assert_eq!(
        found(&matcher, input),
        vec![
            ("src/lib.rs".to_string(), Position::LineColumn(10, 5)),
            ("src/main.rs".to_string(), Position::LineColumn(50, 2)),
        ]
    );
}

#[test]
fn diagnostic_with_carriage_returns() {
    let input = "warning: unused\r\n --> src/lib.rs:10:5\r\n";
    let matcher = RustPositionMatcher::new(RustLevel::All);
    assert_eq!(
        found(&matcher, input),
        vec![("src/lib.rs".to_string(), Position::LineColumn(10, 5))]
    );
}

#[test]
fn errors_only_skips_warnings() {
    let input = "warning: unused\n --> src/lib.rs:10:5\nerror: broken\n --> src/main.rs:50:2\n";
    let matcher = RustPositionMatcher::new(RustLevel::Error);
    assert_eq!(
        found(&matcher, input),
        vec![("src/main.rs".to_string(), Position::LineColumn(50, 2))]
    );
}

#[test]
fn warnings_only_skips_errors() {
    let input = "warning: unused\n --> src/lib.rs:10:5\nerror: broken\n --> src/main.rs:50:2\n";
    let matcher = RustPositionMatcher::new(RustLevel::Warning);
    assert_eq!(
        found(&matcher, input),
        vec![("src/lib.rs".to_string(), Position::LineColumn(10, 5))]
    );
}

#[test]
fn errors_only_skips_warning_without_location() {
    let input = "warning: nothing follows that names a place\nnot a location\n";
    let matcher = RustPositionMatcher::new(RustLevel::Error);
    assert!(found(&matcher, input).is_empty());
}

#[test]
fn summary_line_reports_no_position() {
    let input =
        "warning: 3 warnings generated, run `cargo fix` to apply them\n --> src/lib.rs:1:1\n";
    let matcher = RustPositionMatcher::new(RustLevel::All);
    assert!(found(&matcher, input).is_empty());
}

#[test]
fn diagnostic_without_location_fails() {
    let input = "note: fine\nerror: broken\nno location here\nwarning: x\n --> a.rs:1:1\n";
    let matcher = RustPositionMatcher::new(RustLevel::All);
    match matcher.find_positions(input) {
        Err(PositionError::PositionParse(line)) => assert_eq!(line, "no location here"),
        other => panic!("unexpected: {:?}", other),
    }
}

#[test]
fn diagnostic_on_last_line_reports_nothing() {
    let matcher = RustPositionMatcher::new(RustLevel::All);
    assert!(found(&matcher, "warning: alone").is_empty());
    assert!(found(&matcher, "warning: alone\n").is_empty());
    assert!(found(&matcher, "").is_empty());
}

#[test]
fn diagnostic_line_can_be_a_location_too() {
    let input = "warning: a\nwarning: --> x.rs:1:2\n --> y.rs:3:4\n";
    let matcher = RustPositionMatcher::new(RustLevel::All);
    assert_eq!(
        found(&matcher, input),
        vec![
            ("x.rs".to_string(), Position::LineColumn(1, 2)),
            ("y.rs".to_string(), Position::LineColumn(3, 4)),
        ]
    );
}

#[test]
fn diagnostic_location_needs_rust_file() {
    let input = "error: broken\n --> src/lib.txt:1:1\n";
    let matcher = RustPositionMatcher::new(RustLevel::All);
    match matcher.find_positions(input) {
        Err(PositionError::PositionParse(line)) => assert_eq!(line, " --> src/lib.txt:1:1"),
        other => panic!("unexpected: {:?}", other),
    }
}

#[test]
fn diagnostic_number_too_large_fails() {
    let input = "error: broken\n --> src/lib.rs:4294967296:1\n";
    let matcher = RustPositionMatcher::new(RustLevel::All);
    match matcher.find_positions(input) {
        Err(PositionError::PositionParse(line)) => {
            assert_eq!(line, " --> src/lib.rs:4294967296:1")
        }
        other => panic!("unexpected: {:?}", other),
    }
}

#[test]
fn diagnostic_line_zero_fails() {
    let input = "error: broken\n --> src/lib.rs:0:1\n";
    let matcher = RustPositionMatcher::new(RustLevel::All);
    assert!(matches!(matcher.find_positions(input), Err(PositionError::PositionParse(_))));
}

#[test]
fn diagnostic_with_non_ascii_path() {
    let input = "error: broken\n --> src/gr\u{fc}n.rs:3:7\n";
    let matcher = RustPositionMatcher::new(RustLevel::All);
    assert_eq!(
        found(&matcher, input),
        vec![("src/gr\u{fc}n.rs".to_string(), Position::LineColumn(3, 7))]
    );
}

#[test]
fn pattern_matcher_rejects_invalid_pattern() {
    match RegexPositionMatcher::new("(unclosed") {
        Err(PositionError::Configuration(pattern)) => assert_eq!(pattern, "(unclosed"),
        other => panic!("unexpected: {:?}", other),
    }
}

#[test]
fn pattern_matcher_finds_named_groups() {
    let matcher =
        RegexPositionMatcher::new(r"(?P<path>\S+):(?P<line>\d+):(?P<col>\d+)").unwrap();
    assert_eq!(
        found(&matcher, "build.txt:3:1 note"),
        vec![("build.txt".to_string(), Position::LineColumn(3, 1))]
    );
}

#[test]
fn pattern_matcher_window_of_radius_zero() {
    let matcher =
        RegexPositionMatcher::new(r"(?P<path>\S+):(?P<line>\d+):(?P<col>\d+)").unwrap();
    let positions = matcher.find_positions("build.txt:3:1 note").unwrap();
    assert_eq!(positions.len(), 1);
    assert_eq!(positions[0].path, "build.txt");
    let (start, end) = positions[0].position.lines_around(0);
    assert_eq!(start, Position::Line(3));
    assert_eq!(end, Position::Line(3));
}

#[test]
fn pattern_matcher_finds_all_matches_in_order() {
    let matcher = RegexPositionMatcher::new(r"(\w+\.c)@(\d+),(\d+)").unwrap();
    assert_eq!(
        found(&matcher, "a.c@1,2 then b.c@30,4\nand a.c@5,6"),
        vec![
            ("a.c".to_string(), Position::LineColumn(1, 2)),
            ("b.c".to_string(), Position::LineColumn(30, 4)),
            ("a.c".to_string(), Position::LineColumn(5, 6)),
        ]
    );
}

#[test]
fn pattern_matcher_without_match_finds_nothing() {
    let matcher = RegexPositionMatcher::new(r"(\w+):(\d+):(\d+)").unwrap();
    assert!(found(&matcher, "nothing to see").is_empty());
}

#[test]
fn pattern_matcher_non_numeric_capture_fails() {
    let matcher = RegexPositionMatcher::new(r"(\w+):(\w+):(\w+)").unwrap();
    match matcher.find_positions("ok:1:2 bad:x:3") {
        Err(PositionError::PositionParse(report)) => assert_eq!(report, "bad:x:3"),
        other => panic!("unexpected: {:?}", other),
    }
}

#[test]
fn pattern_matcher_too_few_groups_fails() {
    let matcher = RegexPositionMatcher::new(r"(\w+):(\d+)").unwrap();
    assert!(matches!(matcher.find_positions("a:1"), Err(PositionError::MalformedInput)));
}

#[test]
fn pattern_matcher_group_without_part_fails() {
    let matcher = RegexPositionMatcher::new(r"(\w+):(\d+)(?::(\d+))?").unwrap();
    assert_eq!(
        found(&matcher, "a:1:2"),
        vec![("a".to_string(), Position::LineColumn(1, 2))]
    );
    assert!(matches!(matcher.find_positions("a:1"), Err(PositionError::MalformedInput)));
}

#[test]
fn position_from_groups_reads_three_groups() {
    let position =
        position_from_groups(&groups(&[Some("p:4:2"), Some("p"), Some("4"), Some("2")]), "p:4:2")
            .unwrap();
    assert_eq!(position.path, "p");
    assert_eq!(position.position, Position::LineColumn(4, 2));
}

#[test]
fn position_from_groups_names_the_report() {
    let result =
        position_from_groups(&groups(&[Some("p:x:2"), Some("p"), Some("x"), Some("2")]), "report");
    match result {
        Err(PositionError::PositionParse(report)) => assert_eq!(report, "report"),
        other => panic!("unexpected: {:?}", other),
    }
    let zero =
        position_from_groups(&groups(&[Some("p:1:0"), Some("p"), Some("1"), Some("0")]), "zero");
    assert!(matches!(zero, Err(PositionError::PositionParse(_))));
}

#[test]
fn position_from_groups_needs_all_groups() {
    assert!(matches!(
        position_from_groups(&groups(&[Some("p"), Some("p"), Some("1")]), "p"),
        Err(PositionError::MalformedInput)
    ));
    assert!(matches!(
        position_from_groups(&groups(&[Some("p"), Some("p"), None, Some("1")]), "p"),
        Err(PositionError::MalformedInput)
    ));
    assert!(matches!(
        position_from_groups(&groups(&[]), "p"),
        Err(PositionError::MalformedInput)
    ));
}

#[test]
fn position_from_line_without_match_names_the_line() {
    match position_from_line(&None, "the line") {
        Err(PositionError::PositionParse(line)) => assert_eq!(line, "the line"),
        other => panic!("unexpected: {:?}", other),
    }
    let some = Some(groups(&[Some("x"), Some("f.rs"), Some("2"), Some("9")]));
    let position = position_from_line(&some, "the line").unwrap();
    assert_eq!(position.path, "f.rs");
    assert_eq!(position.position, Position::LineColumn(2, 9));
}

#[test]
fn positions_from_matches_stops_at_first_failure() {
    let all = vec![
        groups(&[Some("a:1:1"), Some("a"), Some("1"), Some("1")]),
        groups(&[Some("b:?:1"), Some("b"), Some("?"), Some("1")]),
        groups(&[Some("c")]),
    ];
    match positions_from_matches(&all) {
        Err(PositionError::PositionParse(report)) => assert_eq!(report, "b:?:1"),
        other => panic!("unexpected: {:?}", other),
    }
    let good = positions_from_matches(&all[..1].to_vec()).unwrap();
    assert_eq!(good.len(), 1);
    assert_eq!(good[0].path, "a");
}
