use scoped_replace::grouping::{distinct_paths, group_by_path, positions_for};
use scoped_replace::position::{FilePosition, Position};

fn report(path: &str, line: u32, column: u32) -> FilePosition {
    FilePosition { path: path.to_string(), position: Position::LineColumn(line, column) }
}

#[test]
fn groups_keep_order_of_first_appearance() {
    let found = vec![
        report("b.rs", 4, 1),
        report("a.rs", 1, 2),
        report("b.rs", 2, 3),
        report("c.rs", 9, 9),
        report("a.rs", 7, 7),
    ];
    let groups = group_by_path(&found);
    assert_eq!(groups.len(), 3);
    assert_eq!(groups[0].path, "b.rs");
    assert_eq!(
        groups[0].positions,
        vec![Position::LineColumn(4, 1), Position::LineColumn(2, 3)]
    );
    assert_eq!(groups[1].path, "a.rs");
    assert_eq!(
        groups[1].positions,
        vec![Position::LineColumn(1, 2), Position::LineColumn(7, 7)]
    );
    assert_eq!(groups[2].path, "c.rs");
    assert_eq!(groups[2].positions, vec![Position::LineColumn(9, 9)]);
}

#[test]
fn grouping_nothing_gives_no_group() {
    assert!(group_by_path(&Vec::new()).is_empty());
}

#[test]
fn grouping_keeps_repeated_positions() {
    let found = vec![report("a.rs", 1, 1), report("a.rs", 1, 1)];
    let groups = group_by_path(&found);
    assert_eq!(groups.len(), 1);
    assert_eq!(
        groups[0].positions,
        vec![Position::LineColumn(1, 1), Position::LineColumn(1, 1)]
    );
}

#[test]
fn distinct_paths_names_each_path_once() {
    let found = vec![report("x", 1, 1), report("y", 1, 1), report("x", 2, 1)];
    assert_eq!(distinct_paths(&found), vec!["x".to_string(), "y".to_string()]);
}

#[test]
fn positions_for_one_path() {
    let found = vec![report("x", 1, 1), report("y", 5, 1), report("x", 2, 1)];
    assert_eq!(
        positions_for(&found, &"x".to_string()),
        vec![Position::LineColumn(1, 1), Position::LineColumn(2, 1)]
    );
    assert!(positions_for(&found, &"z".to_string()).is_empty());
}

#[test]
fn grouping_every_position_lands_in_one_group() {
    let found = vec![
        report("a", 1, 1),
        report("b", 2, 1),
        report("a", 3, 1),
        report("c", 4, 1),
        report("b", 5, 1),
    ];
    let groups = group_by_path(&found);
    let total: usize = groups.iter().map(|group| group.positions.len()).sum();
    assert_eq!(total, found.len());
    for (i, group) in groups.iter().enumerate() {
        for other in &groups[i + 1..] {
            assert_ne!(group.path, other.path);
        }
    }
}
