use auto_stash::diff_track::{collect_diffs, create_diff_string, search_diffs, DIFF};
use auto_stash::exclude::is_excluded;
use auto_stash::handler::{time_frame_for_slot, EventHandle, FsEvent, Reaction};
use auto_stash::exclude::Exclude;
use auto_stash::store::Store;
use auto_stash::timeframe::TimeFrame;

fn names(v: &[&str]) -> Vec<String> {
    v.iter().map(|s| s.to_string()).collect()
}

#[test]
fn excluded_by_base_name() {
    let files = names(&["Cargo.lock", ".DS_Store"]);
    let dirs = names(&["target", ".git"]);
    assert!(is_excluded("/w/proj/Cargo.lock", &files, &dirs));
    assert!(!is_excluded("/w/proj/Cargo.toml", &files, &dirs));
    assert!(!is_excluded("/w/Cargo.lock.bak", &files, &dirs));
}

#[test]
fn excluded_by_any_ancestor() {
    let files = names(&[]);
    let dirs = names(&["target", ".git"]);
    assert!(is_excluded("/w/proj/target/debug/out.rs", &files, &dirs));
    assert!(is_excluded("/w/proj/.git/HEAD", &files, &dirs));
    assert!(!is_excluded("/w/proj/src/target.rs", &files, &dirs));
    assert!(!is_excluded("/w/proj/targets/x.rs", &files, &dirs));
    assert!(is_excluded("target/x.rs", &files, &dirs));
}

fn handler(dirs: &[&str], files: &[&str]) -> EventHandle {
    EventHandle::new(Store::new(), Exclude { paths: names(dirs), files: names(files) })
}

#[test]
fn excluded_write_is_ignored() {
    let mut h = handler(&["target"], &["skip.txt"]);
    let ev = FsEvent::Write("/w/target/a.txt".to_string());
    assert_eq!(h.on_fs_event(&ev, true), Reaction::Ignore);
    h.on_file_read("/w/target/a.txt", &names(&["x"]), 5).unwrap();
    h.on_file_read("/w/skip.txt", &names(&["x"]), 5).unwrap();
    assert_eq!(h.store.histories().len(), 0);
}

#[test]
fn write_of_tracked_file_is_read_and_recorded() {
    let mut h = handler(&["target"], &[]);
    let ev = FsEvent::Write("/w/a.txt".to_string());
    assert_eq!(h.on_fs_event(&ev, true), Reaction::ReadFile("/w/a.txt".to_string()));
    assert_eq!(h.on_fs_event(&ev, false), Reaction::Ignore);
    assert_eq!(h.on_fs_event(&FsEvent::Remove("/w/a.txt".to_string()), true), Reaction::Ignore);
    assert_eq!(h.on_fs_event(&FsEvent::Other, true), Reaction::Ignore);
    h.on_file_read("/w/a.txt", &names(&["x", "y"]), 5).unwrap();
    assert_eq!(h.store.get_file_changes("/w/a.txt").len(), 2);
    assert_eq!(h.store.cursor_of("/w/a.txt"), Some(1));
    h.stop();
    assert_eq!(h.on_fs_event(&ev, true), Reaction::Ignore);
    h.on_file_read("/w/a.txt", &names(&["z"]), 6).unwrap();
    assert_eq!(h.store.get_file_changes("/w/a.txt").len(), 2);
}

#[test]
fn handler_undo_and_window() {
    let mut h = handler(&[], &[]);
    h.on_file_read("a", &names(&["1"]), 5).unwrap();
    h.on_file_read("a", &names(&["2"]), 9).unwrap();
    assert_eq!(h.on_undo("a", 1, &names(&["2"])).unwrap(), names(&["1"]));
    assert_eq!(h.on_redo("a", 1, &names(&["1"])).unwrap(), names(&["2"]));
    h.on_time_frame_change(TimeFrame::WEEK);
    assert_eq!(h.store.time_frame, TimeFrame::WEEK);
    assert_eq!(h.view(10).len(), 1);
}

#[test]
fn tabs_select_time_frames() {
    assert_eq!(time_frame_for_slot(0), TimeFrame::HOUR);
    assert_eq!(time_frame_for_slot(1), TimeFrame::DAY);
    assert_eq!(time_frame_for_slot(2), TimeFrame::WEEK);
    assert_eq!(time_frame_for_slot(7), TimeFrame::DAY);
}

#[test]
fn diff_string_layout() {
    let diffs = vec![
        DIFF::new(12, false, "a".to_string(), "".to_string()),
        DIFF::new(-3, true, "old".to_string(), "new".to_string()),
    ];
    assert_eq!(create_diff_string(diffs), "12#=#a#=#EMPTY#=#\n-3#=#new#=#old#=#\n");
    assert_eq!(create_diff_string(vec![]), "");
}

#[test]
fn diffs_between_versions() {
    let orig = names(&["abc", "same", "(unclosed"]);
    let edited = names(&["abd", "same", "other", "extra"]);
    let diffs = collect_diffs(&orig, &edited, false);
    let text = create_diff_string(diffs);
    assert_eq!(text, "0#=#abc#=#abd#=#\n3#=#EMPTY#=#extra#=#\n");
}

#[test]
fn search_reports_matching_change() {
    let mut container = vec![];
    assert_eq!(search_diffs("a.c", "abc", 4, &mut container, true), 4);
    assert_eq!(container.len(), 1);
    assert_eq!(search_diffs("x", "x", 5, &mut container, true), 5);
    assert_eq!(container.len(), 1);
    assert_eq!(create_diff_string(container), "4#=#abc#=#a.c#=#\n");
}

#[test]
fn excluded_directory_above_the_file_counts() {
    let dirs = names(&["build"]);
    assert!(is_excluded("/w/build/a.txt", &names(&[]), &dirs));
    let h = handler(&["build"], &[]);
    let ev = FsEvent::Write("/w/build/a.txt".to_string());
    assert_eq!(h.on_fs_event(&ev, true), Reaction::Ignore);
}
