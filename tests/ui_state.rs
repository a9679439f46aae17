use auto_stash::delta::LineDifference;
use auto_stash::ui_state::{process_new_version, App, Color, Span, StatefulList, TabsState};

#[test]
fn tabs_wrap_around() {
    let mut tabs = TabsState::new(vec!["1h".to_string(), "24h".to_string(), "7 Tage".to_string()]);
    assert_eq!(tabs.index, 0);
    tabs.previous();
    assert_eq!(tabs.index, 2);
    tabs.next();
    assert_eq!(tabs.index, 0);
    tabs.next();
    assert_eq!(tabs.get_index(), 1);
}

#[test]
fn list_selection_wraps() {
    let mut list = StatefulList::with_items(vec!["a", "b", "c"]);
    assert_eq!(list.get_index(), 0);
    list.next();
    assert_eq!(list.state.selected(), Some(0));
    list.previous();
    assert_eq!(list.state.selected(), Some(2));
    list.next();
    assert_eq!(list.state.selected(), Some(0));
    list.next();
    assert_eq!(list.get_index(), 1);
    list.unselect();
    assert_eq!(list.state.selected(), None);
    list.add_item("d");
    assert_eq!(list.items.len(), 4);
    list.flush_display();
    assert!(list.list_is_empty());
    let empty: StatefulList<u8> = StatefulList::new();
    assert!(empty.items.is_empty());
}

#[test]
fn change_is_shown_in_colours() {
    let d = LineDifference::new_at("p".to_string(), 42, "old".to_string(), "new".to_string(), 0);
    let spans = process_new_version(vec![d]);
    let plain = |s: &str| Span { content: s.to_string(), color: None };
    let painted = |s: &str, c: Color| Span { content: s.to_string(), color: Some(c) };
    assert_eq!(
        spans,
        vec![vec![
            plain("\n"),
            painted("42", Color::Blue),
            plain("->"),
            painted("old", Color::Red),
            plain("->"),
            painted("new", Color::Green),
            plain("\n"),
        ]]
    );
}

#[test]
fn dashboard_keys() {
    let mut app = App::new("AutoStash");
    assert_eq!(app.title, "AutoStash");
    app.on_right();
    assert_eq!(app.tabs.index, 1);
    app.on_left();
    app.on_left();
    assert_eq!(app.tabs.index, 2);
    app.on_down();
    assert_eq!(app.filenames.state.selected(), Some(0));
    app.on_key('s');
    assert_eq!(app.pane_ptr, -1);
    app.on_up();
    assert_eq!(app.version_snapshots.state.selected(), Some(0));
    app.on_up();
    assert_eq!(app.version_snapshots.state.selected(), Some(1));
    app.on_key('x');
    assert!(!app.should_quit);
    app.on_tick();
    app.on_key('q');
    assert!(app.should_quit);
}

#[test]
fn decimal_digits() {
    assert_eq!(auto_stash::text::decimal_string(0), "0");
    assert_eq!(auto_stash::text::decimal_string(1234567), "1234567");
    assert_eq!(auto_stash::text::decimal_string(usize::MAX), usize::MAX.to_string());
}

#[test]
fn dashboard_starts_with_its_lists() {
    let mut app = App::new("AutoStash");
    assert_eq!(app.tabs.titles, vec!["1h", "24h", "7 Tage"]);
    assert_eq!(app.filenames.items, vec!["quix", "quax"]);
    assert_eq!(app.version_snapshots.items, vec!["foo", "bar"]);
    assert!(app.show_chart);
    app.on_key('z');
    assert_eq!(app.pane_ptr, 1);
    assert!(!app.should_quit);
}
