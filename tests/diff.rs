use auto_stash::delta::LineDifference;
use auto_stash::diff::{find, find_at};
use std::cmp::Ordering;

fn lines(text: &[&str]) -> Vec<String> {
    text.iter().map(|l| l.to_string()).collect()
}

fn hello(count: usize) -> Vec<String> {
    vec!["Hello World".to_string(); count]
}

/// The history of a file of five "Hello World" lines whose last line was
/// removed and written again.
fn read(path: &str) -> Vec<LineDifference> {
    let mut res: Vec<LineDifference> = hello(5)
        .into_iter()
        .enumerate()
        .map(|(index, line)| LineDifference::new(path.to_string(), index, "".to_string(), line))
        .collect();
    res.push(LineDifference::new(
        path.to_string(),
        4,
        "Hello World".to_string(),
        "".to_string(),
    ));
    res.push(LineDifference::new(
        path.to_string(),
        4,
        "".to_string(),
        "Hello World".to_string(),
    ));
    res
}

#[test]
fn no_changes() {
    let path = "test.txt";
    let changes = read(path);
    let new_changes: Vec<LineDifference> = find(path, &hello(5), &changes);
    assert_eq!(new_changes, []);
}

#[test]
fn changes() {
    let path = "test2.txt";
    let changes = read(path);
    let mut content = hello(5);
    content[3] = "Hello W0rld".to_string();
    let new_changes: Vec<LineDifference> = find(path, &content, &changes);
    assert_eq!(
        new_changes,
        vec![LineDifference::new(
            path.to_string(),
            3,
            "Hello World".to_string(),
            "Hello W0rld".to_string()
        )]
    );
}

#[test]
fn more_lines_than_differences() {
    let path = "test3.txt";
    let changes = read(path);
    let new_changes: Vec<LineDifference> = find(path, &hello(6), &changes);
    assert_eq!(
        new_changes,
        vec![LineDifference::new(
            path.to_string(),
            5,
            "".to_string(),
            "Hello World".to_string()
        )]
    );
}

#[test]
fn more_differences_than_lines() {
    let path = "test4.txt";
    let mut changes = read(path);
    changes.push(LineDifference::new(
        path.to_string(),
        5,
        "".to_string(),
        "Hello World".to_string(),
    ));
    let new_changes: Vec<LineDifference> = find(path, &hello(5), &changes);
    assert_eq!(
        new_changes,
        vec![LineDifference::new(
            path.to_string(),
            5,
            "Hello World".to_string(),
            "".to_string()
        )]
    );
}

#[test]
fn should_compare_only_the_latest_prev_changes() {
    let path = "test5.txt";
    let prev_change =
        LineDifference::new(path.to_string(), 0, "".to_string(), "Hello World".to_string());
    let changes: Vec<LineDifference> = vec![
        prev_change,
        LineDifference::new(
            path.to_string(),
            0,
            "Hello World".to_string(),
            "Hello World2".to_string(),
        ),
    ];
    let new_changes: Vec<LineDifference> =
        find(path, &lines(&["Hello World2", "New Change"]), &changes);
    assert_eq!(
        new_changes,
        vec![LineDifference::new(
            path.to_string(),
            1,
            "".to_string(),
            "New Change".to_string()
        )]
    );
}

#[test]
fn latest_change_wins_by_time_not_position() {
    let p = "f.txt".to_string();
    let changes = vec![
        LineDifference::new_at(p.clone(), 0, "".to_string(), "new".to_string(), 20),
        LineDifference::new_at(p.clone(), 0, "".to_string(), "old".to_string(), 10),
    ];
    let out = find_at("f.txt", &lines(&["old"]), &changes, 30);
    assert_eq!(
        out,
        vec![LineDifference::new_at(p, 0, "new".to_string(), "old".to_string(), 30)]
    );
}

#[test]
fn all_changes_of_one_call_share_their_time() {
    let out = find_at("f.txt", &lines(&["a", "b"]), &vec![], 77);
    assert_eq!(out.len(), 2);
    assert!(out.iter().all(|d| d.date_time == 77));
    assert_eq!(out[0].line_number, 0);
    assert_eq!(out[1].changed_line, "b");
}

#[test]
fn finding_twice_yields_nothing() {
    let path = "f.txt";
    let mut history = find_at(path, &hello(4), &vec![], 1);
    let content = lines(&["Hello World", "changed", "more"]);
    let first = find_at(path, &content, &history, 2);
    assert_eq!(first.len(), 3);
    history.extend(first);
    assert_eq!(find_at(path, &content, &history, 3), vec![]);
}

#[test]
fn removed_line_is_not_removed_again() {
    let path = "f.txt";
    let mut history = find_at(path, &hello(3), &vec![], 1);
    let removal = find_at(path, &hello(2), &history, 2);
    assert_eq!(
        removal,
        vec![LineDifference::new_at(path.to_string(), 2, "Hello World".to_string(), "".to_string(), 2)]
    );
    history.extend(removal);
    assert_eq!(find_at(path, &hello(2), &history, 3), vec![]);
}

#[test]
fn token_is_empty() {
    let t = LineDifference::token();
    assert_eq!(t.path, "");
    assert_eq!(t.line_number, 0);
    assert_eq!(t.line, "");
    assert_eq!(t.changed_line, "");
}

#[test]
fn equality_ignores_time() {
    let a = LineDifference::new_at("p".to_string(), 1, "a".to_string(), "b".to_string(), 1);
    let b = LineDifference::new_at("p".to_string(), 1, "a".to_string(), "b".to_string(), 99);
    let c = LineDifference::new_at("p".to_string(), 2, "a".to_string(), "b".to_string(), 1);
    assert_eq!(a, b);
    assert_ne!(a, c);
}

#[test]
fn emptied_file_removes_every_line() {
    let path = "f.txt";
    let history = find_at(path, &lines(&["a", "b"]), &vec![], 1);
    let out = find_at(path, &vec![], &history, 2);
    assert_eq!(
        out,
        vec![
            LineDifference::new_at(path.to_string(), 0, "a".to_string(), "".to_string(), 2),
            LineDifference::new_at(path.to_string(), 1, "b".to_string(), "".to_string(), 2),
        ]
    );
    assert_eq!(find_at(path, &vec![], &vec![], 3), vec![]);
}

#[test]
fn moments_order_earlier_first() {
    assert_eq!(auto_stash::delta::sort(1, 2), Ordering::Less);
    assert_eq!(auto_stash::delta::sort(3, 2), Ordering::Greater);
    assert_eq!(auto_stash::delta::sort(-5, -5), Ordering::Equal);
}
