use scoped_replace::grouping::group_by_path;
use scoped_replace::level::RustLevel;
use scoped_replace::pattern::Pattern;
use scoped_replace::position::Position;
use scoped_replace::position_matcher::{PositionMatcher, RegexPositionMatcher, RustPositionMatcher};
use scoped_replace::replace::{check_windows, replace_all};

fn numbered_file(lines: usize) -> String {
    let mut text = String::new();
    for line in 1..=lines {
        text.push_str(&format!("foo in line {}\n", line));
    }
    text
}

#[test]
fn two_diagnostics_rewrite_their_windows() {
    let input = "warning: unused variable\n  --> src/lib.rs:10:5\n   |\n\
                 error: mismatched types\n  --> src/lib.rs:50:2\n   |\n\
                 warning: 2 warnings generated, run `cargo fix` to apply them\n";
    let matcher = RustPositionMatcher::new(RustLevel::All);
    let groups = group_by_path(&matcher.find_positions(input).unwrap());
    assert_eq!(groups.len(), 1);
    assert_eq!(groups[0].path, "src/lib.rs");
    assert_eq!(
        groups[0].positions,
        vec![Position::LineColumn(10, 5), Position::LineColumn(50, 2)]
    );

    let file = numbered_file(60);
    assert!(check_windows(&groups[0].positions, 2));
    let search = Pattern::new("foo").unwrap();
    let out = replace_all(&search, "bar", &file, &groups[0].positions, 2);
    for (index, line) in out.lines().enumerate() {
        let number = index + 1;
        let inside = (8..12).contains(&number) || (48..52).contains(&number);
        let word = if inside { "bar" } else { "foo" };
        assert_eq!(line, format!("{} in line {}", word, number));
    }
    assert_eq!(out.lines().count(), 60);
}

#[test]
fn pattern_report_with_radius_zero_windows_one_line() {
    let matcher =
        RegexPositionMatcher::new(r"(?P<path>\S+):(?P<line>\d+):(?P<col>\d+)").unwrap();
    let groups = group_by_path(&matcher.find_positions("build.txt:3:1 note").unwrap());
    assert_eq!(groups.len(), 1);
    assert_eq!(groups[0].path, "build.txt");
    assert_eq!(groups[0].positions, vec![Position::LineColumn(3, 1)]);
    let (start, end) = groups[0].positions[0].lines_around(0);
    assert_eq!(start, Position::Line(3));
    assert_eq!(end, Position::Line(3));
}

#[test]
fn reports_for_several_files_are_rewritten_apart() {
    let input = "a.txt:2:1\nb.txt:1:1\na.txt:4:1\n";
    let matcher = RegexPositionMatcher::new(r"(\S+):(\d+):(\d+)").unwrap();
    let groups = group_by_path(&matcher.find_positions(input).unwrap());
    assert_eq!(groups.len(), 2);
    let search = Pattern::new(r"(\d)").unwrap();
    let file = "1\n2\n3\n4\n5\n";
    assert_eq!(
        replace_all(&search, "<$1>", file, &groups[0].positions, 1),
        "<1>\n<2>\n<3>\n<4>\n5\n"
    );
    assert_eq!(replace_all(&search, "<$1>", file, &groups[1].positions, 1), "<1>\n2\n3\n4\n5\n");
}
