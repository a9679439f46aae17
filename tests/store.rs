use auto_stash::delta::LineDifference;
use auto_stash::diff::find_at;
use auto_stash::materialize::materialize;
use auto_stash::store::{PathHistory, Store, StoreError};
use auto_stash::timeframe::TimeFrame;
use auto_stash::view::hits_of_codes;
use auto_stash::view::{HitsOfCode, Version};

fn hello(count: usize) -> Vec<String> {
    vec!["Hello World".to_string(); count]
}

const F: &str = "f.txt";

fn seeded(now: i64) -> Store {
    let mut store = Store::new();
    store.seed_file(F, &hello(10), now).unwrap();
    store
}

fn record(store: &mut Store, content: &Vec<String>, now: i64) {
    let history = store.get_file_changes(F);
    let changes = find_at(F, content, &history, now);
    store.store_changes(F, &changes, now).unwrap();
}

#[test]
fn seeded_file_has_no_changes() {
    let store = seeded(1000);
    let history = store.get_file_changes(F);
    assert_eq!(history.len(), 10);
    assert_eq!(find_at(F, &hello(10), &history, 2000), vec![]);
    assert_eq!(store.cursor_of(F), Some(1));
    assert_eq!(store.version_count(F), Some(1));
}

#[test]
fn single_line_change_after_seeding() {
    let store = seeded(1000);
    let mut content = hello(10);
    content[3] = "Hello W0rld".to_string();
    let out = find_at(F, &content, &store.get_file_changes(F), 2000);
    assert_eq!(
        out,
        vec![LineDifference::new_at(F.to_string(), 3, "Hello World".to_string(), "Hello W0rld".to_string(), 2000)]
    );
}

#[test]
fn appended_line_after_seeding() {
    let store = seeded(1000);
    let out = find_at(F, &hello(11), &store.get_file_changes(F), 2000);
    assert_eq!(
        out,
        vec![LineDifference::new_at(F.to_string(), 10, "".to_string(), "Hello World".to_string(), 2000)]
    );
}

#[test]
fn removed_last_line_after_seeding() {
    let store = seeded(1000);
    let out = find_at(F, &hello(9), &store.get_file_changes(F), 2000);
    assert_eq!(out.len(), 1);
    assert_eq!(out[0].line_number, 9);
    assert_eq!(out[0].changed_line, "");
    assert_eq!(out[0].line, "Hello World");
}

#[test]
fn undo_one_step_restores_the_seed() {
    let mut store = seeded(1000);
    let mut content = hello(10);
    content[3] = "Hello W0rld".to_string();
    record(&mut store, &content, 2000);
    assert_eq!(store.cursor_of(F), Some(2));
    let restored = store.undo_by(F, 1, &content).unwrap();
    assert_eq!(restored, hello(10));
    assert_eq!(store.cursor_of(F), Some(1));
}

#[test]
fn append_extends_history_and_boundaries() {
    let mut store = seeded(1000);
    let before = store.get_file_changes(F);
    let changes = vec![LineDifference::new_at(F.to_string(), 2, "Hello World".to_string(), "x".to_string(), 1500)];
    store.store_changes(F, &changes, 1600).unwrap();
    let after = store.get_file_changes(F);
    assert_eq!(after.len(), before.len() + 1);
    assert_eq!(after[..before.len()].to_vec(), before);
    assert_eq!(after[before.len()], changes[0]);
    assert_eq!(store.version_count(F), Some(2));
    assert_eq!(store.histories()[0].timestamps, vec![1000, 1600]);
    assert_eq!(store.cursor_of(F), Some(2));
}

#[test]
fn append_to_new_path_starts_at_cursor_one() {
    let mut store = Store::new();
    let changes = vec![LineDifference::new_at("g.txt".to_string(), 0, "".to_string(), "a".to_string(), 5)];
    store.store_changes("g.txt", &changes, 7).unwrap();
    assert_eq!(store.cursor_of("g.txt"), Some(1));
    assert_eq!(store.histories()[0].timestamps, vec![7]);
}

#[test]
fn boundary_never_goes_back_and_covers_changes() {
    let mut store = seeded(1000);
    let changes = vec![LineDifference::new_at(F.to_string(), 0, "Hello World".to_string(), "x".to_string(), 1200)];
    store.store_changes(F, &changes, 900).unwrap();
    assert_eq!(store.histories()[0].timestamps, vec![1000, 1200]);
}

#[test]
fn change_for_another_file_is_refused() {
    let mut store = seeded(1000);
    let changes = vec![LineDifference::new_at("other".to_string(), 0, "".to_string(), "x".to_string(), 1200)];
    assert_eq!(store.store_changes(F, &changes, 1300), Err(StoreError::PathMismatch));
    assert_eq!(store.version_count(F), Some(1));
}

#[test]
fn seeding_twice_is_refused() {
    let mut store = seeded(1000);
    assert_eq!(store.seed_file(F, &hello(2), 2000), Err(StoreError::AlreadyTracked));
}

#[test]
fn undo_of_unknown_path_is_refused() {
    let mut store = seeded(1000);
    assert_eq!(store.undo_by("nope", 1, &hello(1)), Err(StoreError::UnknownPath));
    assert_eq!(store.redo_by("nope", 1, &hello(1)), Err(StoreError::UnknownPath));
}

#[test]
fn undo_and_redo_clamp() {
    let mut store = seeded(1000);
    record(&mut store, &hello(11), 2000);
    record(&mut store, &hello(12), 3000);
    assert_eq!(store.cursor_of(F), Some(3));
    store.undo_by(F, 99, &hello(12)).unwrap();
    assert_eq!(store.cursor_of(F), Some(0));
    store.redo_by(F, usize::MAX, &hello(10)).unwrap();
    assert_eq!(store.cursor_of(F), Some(3));
}

#[test]
fn undo_then_redo_returns_the_content() {
    let mut store = seeded(1000);
    let mut second = hello(10);
    second[0] = "first".to_string();
    record(&mut store, &second, 2000);
    let mut third = second.clone();
    third.push("added".to_string());
    record(&mut store, &third, 3000);
    // The line added after the seed has no record at the seed's boundary,
    // so it keeps its current content.
    let undone = store.undo_by(F, 2, &third).unwrap();
    let mut expected = hello(10);
    expected.push("added".to_string());
    assert_eq!(undone, expected);
    let redone = store.redo_by(F, 2, &undone).unwrap();
    assert_eq!(redone, third);
    let back_one = store.undo_by(F, 1, &redone).unwrap();
    let mut expected = second.clone();
    expected.push("added".to_string());
    assert_eq!(back_one, expected);
}

#[test]
fn undo_restores_a_removed_line() {
    let mut store = seeded(1000);
    record(&mut store, &hello(9), 2000);
    let undone = store.undo_by(F, 1, &hello(9)).unwrap();
    assert_eq!(undone, hello(10));
}

#[test]
fn materialize_at_latest_gives_content_back() {
    let content = vec!["a".to_string(), "".to_string(), "c".to_string()];
    let history = find_at(F, &content, &vec![], 10);
    assert_eq!(materialize(&content, &history, Some(10)), content);
    assert_eq!(materialize(&content, &history, None), content);
}

#[test]
fn view_partitions_changes_in_window() {
    let mut store = Store::new();
    store.change_time_frame(TimeFrame::MINUTE);
    let base: i64 = 1_000_000;
    store.seed_file(F, &hello(2), base).unwrap();
    record(&mut store, &vec!["a".to_string(), "Hello World".to_string()], base + 10_000);
    record(&mut store, &vec!["a".to_string(), "b".to_string(), "c".to_string()], base + 70_000);
    // Window of a minute ending at base + 75s starts at base + 15s.
    let view = store.view(base + 75_000);
    assert_eq!(view.len(), 1);
    let fv = view[0].as_ref().unwrap();
    assert_eq!(fv.path, F);
    assert_eq!(fv.versions.len(), 1);
    assert_eq!(fv.versions[0].datetime, base + 70_000);
    let changes = &fv.versions[0].changes;
    assert_eq!(changes.len(), 2);
    assert_eq!(changes[0].line_number, 2);
    assert_eq!(changes[1].line_number, 1);
    // An hour covers every snapshot.
    store.change_time_frame(TimeFrame::HOUR);
    let view = store.view(base + 75_000);
    let fv = view[0].as_ref().unwrap();
    let datetimes: Vec<i64> = fv.versions.iter().map(|v| v.datetime).collect();
    assert_eq!(datetimes, vec![base + 70_000, base + 10_000, base]);
    let total: usize = fv.versions.iter().map(|v| v.changes.len()).sum();
    assert_eq!(total, store.get_file_changes(F).len());
    // Long after, nothing is in the window.
    let view = store.view(base + 10_000_000);
    assert!(view[0].is_none());
}

#[test]
fn hits_are_summed_per_day() {
    let day: i64 = 86_400_000;
    let d = |n: usize| vec![LineDifference::new_at(F.to_string(), 0, "".to_string(), "x".to_string(), 1); n];
    let versions = vec![
        Version { datetime: 3 * day + 5, changes: d(2) },
        Version { datetime: 3 * day + 1, changes: d(3) },
        Version { datetime: 2 * day, changes: d(1) },
        Version { datetime: -1, changes: d(4) },
    ];
    assert_eq!(
        hits_of_codes(&versions),
        vec![
            HitsOfCode { date: 3, hits: 5 },
            HitsOfCode { date: 2, hits: 1 },
            HitsOfCode { date: -1, hits: 4 },
        ]
    );
}

#[test]
fn time_frame_values() {
    assert_eq!(TimeFrame::MINUTE.value(), 60);
    assert_eq!(TimeFrame::HOUR.value(), 3600);
    assert_eq!(TimeFrame::DAY.value(), 86400);
    assert_eq!(TimeFrame::WEEK.value(), 604800);
}

#[test]
fn snapshot_lists_most_recent_first() {
    let mut store = seeded(1000);
    let changes = vec![
        LineDifference::new_at(F.to_string(), 1, "Hello World".to_string(), "early".to_string(), 1400),
        LineDifference::new_at(F.to_string(), 2, "Hello World".to_string(), "late".to_string(), 1500),
        LineDifference::new_at(F.to_string(), 3, "Hello World".to_string(), "earliest".to_string(), 1300),
    ];
    store.store_changes(F, &changes, 1600).unwrap();
    let view = store.view(2000);
    let fv = view[0].as_ref().unwrap();
    let lines: Vec<String> = fv.versions[0].changes.iter().map(|d| d.changed_line.clone()).collect();
    assert_eq!(lines, vec!["late".to_string(), "early".to_string(), "earliest".to_string()]);
    assert_eq!(fv.hits_of_codes, vec![HitsOfCode { date: 0, hits: 13 }]);
}

#[test]
fn restore_checks_the_history() {
    let mut store = Store::new();
    let bad = PathHistory {
        path: "a".to_string(),
        deltas: vec![],
        timestamps: vec![5, 3],
        cursor: 1,
    };
    assert_eq!(store.restore(bad), Err(StoreError::InvalidHistory));
    let late = PathHistory {
        path: "a".to_string(),
        deltas: vec![LineDifference::new_at("a".to_string(), 0, "".to_string(), "x".to_string(), 9)],
        timestamps: vec![5],
        cursor: 1,
    };
    assert_eq!(store.restore(late), Err(StoreError::InvalidHistory));
    let good = PathHistory {
        path: "a".to_string(),
        deltas: vec![LineDifference::new_at("a".to_string(), 0, "".to_string(), "x".to_string(), 5)],
        timestamps: vec![5],
        cursor: 1,
    };
    assert_eq!(store.restore(good.clone()), Ok(()));
    assert_eq!(store.restore(good), Err(StoreError::AlreadyTracked));
    assert_eq!(store.get_file_changes("a").len(), 1);
}

#[test]
fn undo_then_redo_with_lines_recorded_out_of_order() {
    let mut store = Store::new();
    let first = vec![LineDifference::new_at(F.to_string(), 2, "".to_string(), "x".to_string(), 10)];
    store.store_changes(F, &first, 10).unwrap();
    let second = vec![LineDifference::new_at(F.to_string(), 2, "x".to_string(), "".to_string(), 20)];
    store.store_changes(F, &second, 20).unwrap();
    let undone = store.undo_by(F, 1, &vec![]).unwrap();
    assert_eq!(undone, vec!["".to_string(), "".to_string(), "x".to_string()]);
    let redone = store.redo_by(F, 1, &undone).unwrap();
    assert_eq!(redone, Vec::<String>::new());
}

#[test]
fn view_ignores_what_lies_after_now() {
    let mut store = Store::new();
    let later = vec![LineDifference::new_at(F.to_string(), 0, "".to_string(), "x".to_string(), 10_000_000)];
    store.store_changes(F, &later, 10_000_000).unwrap();
    let view = store.view(0);
    assert!(view[0].is_none());
    let view = store.view(10_000_000);
    assert_eq!(view[0].as_ref().unwrap().versions.len(), 1);
}
