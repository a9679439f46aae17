use vstd::prelude::*;

use crate::delta::LineDifference;
use crate::text::{decimal, decimal_string};
use crate::timeframe::TimeFrame;

verus! {

/// Which item of a list is selected, if any.
#[derive(Clone, Copy, Debug, PartialEq, Eq)]
pub struct ListState {
    pub selected: Option<usize>,
}

impl ListState {
    /// The selected item.
    pub fn selected(&self) -> (r: Option<usize>)
        ensures
            r == self.selected,
    {
        self.selected
    }

    /// Selects `index`, or nothing.
    pub fn select(&mut self, index: Option<usize>)
        ensures
            final(self).selected == index,
    {
        self.selected = index;
    }
}

impl Default for ListState {
    fn default() -> (r: ListState)
        ensures
            r.selected is None,
    {
        ListState { selected: None }
    }
}

/// The tabs of a viewer and the one shown.
#[derive(Clone, Debug)]
pub struct TabsState {
    pub titles: Vec<String>,
    pub index: usize,
}

impl TabsState {
    pub fn new(titles: Vec<String>) -> (r: TabsState)
        ensures
            r.titles == titles,
            r.index == 0,
    {
        TabsState { titles, index: 0 }
    }

    /// Shows the next tab, wrapping from the last to the first.
    pub fn next(&mut self)
        requires
            old(self).titles.len() > 0,
            old(self).index < usize::MAX,
        ensures
            final(self).titles == old(self).titles,
            final(self).index == (old(self).index + 1) % (old(self).titles.len() as int),
    {
        self.index = (self.index + 1) % self.titles.len();
    }

    /// Shows the previous tab, wrapping from the first to the last.
    pub fn previous(&mut self)
        requires
            old(self).titles.len() > 0,
        ensures
            final(self).titles == old(self).titles,
            final(self).index == if old(self).index > 0 {
                old(self).index - 1
            } else {
                old(self).titles.len() - 1
            },
    {
        if self.index > 0 {
            self.index = self.index - 1;
        } else {
            self.index = self.titles.len() - 1;
        }
    }

    /// The tab shown.
    pub fn get_index(&self) -> (r: usize)
        ensures
            r == self.index,
    {
        self.index
    }
}

/// The selection after moving down a list of `len` items: the next item,
/// wrapping from the last to the first; with nothing selected, the first.
pub open spec fn next_selection(selected: Option<usize>, len: nat) -> usize {
    match selected {
        Some(i) => if i >= len - 1 {
            0
        } else {
            (i + 1) as usize
        },
        None => 0,
    }
}

/// The selection after moving up a list of `len` items: the previous item,
/// wrapping from the first to the last; with nothing selected, the first.
pub open spec fn previous_selection(selected: Option<usize>, len: nat) -> usize {
    match selected {
        Some(i) => if i == 0 {
            (len - 1) as usize
        } else {
            (i - 1) as usize
        },
        None => 0,
    }
}

/// A list of items of which at most one is selected.
pub struct StatefulList<T> {
    pub state: ListState,
    pub items: Vec<T>,
}

impl<T> StatefulList<T> {
    pub fn new() -> (r: StatefulList<T>)
        ensures
            r.items@.len() == 0,
            r.state.selected is None,
    {
        StatefulList { state: ListState { selected: None }, items: Vec::new() }
    }

    pub fn with_items(items: Vec<T>) -> (r: StatefulList<T>)
        ensures
            r.items@ == items@,
            r.state.selected is None,
    {
        StatefulList { state: ListState { selected: None }, items }
    }

    /// Removes every item; the selection stays.
    pub fn flush_display(&mut self)
        ensures
            final(self).items@.len() == 0,
            final(self).state == old(self).state,
    {
        self.items.clear();
    }

    /// Adds an item at the end.
    pub fn add_item(&mut self, item: T)
        ensures
            final(self).items@ == old(self).items@.push(item),
            final(self).state == old(self).state,
    {
        self.items.push(item);
    }

    /// The selected position, 0 when nothing is selected.
    pub fn get_index(&mut self) -> (r: usize)
        ensures
            r == match old(self).state.selected {
                Some(i) => i,
                None => 0,
            },
            final(self).state == old(self).state,
            final(self).items@ == old(self).items@,
    {
        match self.state.selected() {
            Some(i) => i,
            None => 0,
        }
    }

    /// Whether the list has no items.
    pub fn list_is_empty(&self) -> (r: bool)
        ensures
            r == (self.items@.len() == 0),
    {
        self.items.len() == 0
    }

    /// Selects the next item, wrapping from the last to the first; with
    /// nothing selected, the first.
    pub fn next(&mut self)
        requires
            old(self).items@.len() > 0 || old(self).state.selected is None,
        ensures
            final(self).items == old(self).items,
            final(self).state.selected == Some(next_selection(old(self).state.selected, old(self).items@.len())),
    {
        let i = match self.state.selected() {
            Some(i) => {
                if i >= self.items.len() - 1 {
                    0
                } else {
                    i + 1
                }
            },
            None => 0,
        };
        self.state.select(Some(i));
    }

    /// Selects the previous item, wrapping from the first to the last; with
    /// nothing selected, the first.
    pub fn previous(&mut self)
        requires
            old(self).items@.len() > 0 || old(self).state.selected is None,
        ensures
            final(self).items == old(self).items,
            final(self).state.selected == Some(previous_selection(old(self).state.selected, old(self).items@.len())),
    {
        let i = match self.state.selected() {
            Some(i) => {
                if i == 0 {
                    self.items.len() - 1
                } else {
                    i - 1
                }
            },
            None => 0,
        };
        self.state.select(Some(i));
    }

    /// Selects nothing.
    pub fn unselect(&mut self)
        ensures
            final(self).state.selected is None,
            final(self).items@ == old(self).items@,
    {
        self.state.select(None);
    }
}

impl<T> Default for StatefulList<T> {
    fn default() -> (r: StatefulList<T>)
        ensures
            r.items@.len() == 0,
            r.state.selected is None,
    {
        StatefulList::new()
    }
}

/// The colours a viewer paints a change with.
#[derive(Clone, Copy, Debug, PartialEq, Eq)]
pub enum Color {
    Blue,
    Red,
    Green,
}

/// A piece of text, painted in a colour or left plain.
#[derive(Clone, Debug, PartialEq, Eq)]
pub struct Span {
    pub content: String,
    pub color: Option<Color>,
}

/// The pieces a change is shown as: its line number in blue, the previous
/// content in red and the new content in green, between arrows and line
/// breaks.
pub open spec fn change_spans(d: LineDifference) -> Seq<(Seq<char>, Option<Color>)> {
    seq![
        (seq!['\n'], None),
        (decimal(d.line_number as nat), Some(Color::Blue)),
        (seq!['-', '>'], None),
        (d.line@, Some(Color::Red)),
        (seq!['-', '>'], None),
        (d.changed_line@, Some(Color::Green)),
        (seq!['\n'], None),
    ]
}

pub open spec fn spans_view(s: Seq<Span>) -> Seq<(Seq<char>, Option<Color>)> {
    s.map_values(|x: Span| (x.content@, x.color))
}

fn plain(s: &str) -> (r: Span)
    ensures
        r.content@ == s@,
        r.color is None,
{
    Span { content: s.to_owned(), color: None }
}

/// The pieces each change is shown as, one line of pieces per change.
pub fn process_new_version(diffs: Vec<LineDifference>) -> (r: Vec<Vec<Span>>)
    ensures
        r@.len() == diffs@.len(),
        forall|i: int| 0 <= i < r@.len() ==> spans_view(#[trigger] r@[i]@) == change_spans(diffs@[i]),
{
    let mut spans: Vec<Vec<Span>> = Vec::new();
    let mut i: usize = 0;
    while i < diffs.len()
        invariant
            i <= diffs.len(),
            spans@.len() == i,
            forall|k: int| 0 <= k < i ==> spans_view(#[trigger] spans@[k]@) == change_spans(diffs@[k]),
        decreases diffs.len() - i,
    {
        let diff = &diffs[i];
        proof {
            reveal_strlit("\n");
            reveal_strlit("->");
            assert("\n"@ =~= seq!['\n']);
            assert("->"@ =~= seq!['-', '>']);
        }
        let mut v: Vec<Span> = Vec::new();
        v.push(plain("\n"));
        v.push(Span { content: decimal_string(diff.line_number), color: Some(Color::Blue) });
        v.push(plain("->"));
        v.push(Span { content: diff.line.clone(), color: Some(Color::Red) });
        v.push(plain("->"));
        v.push(Span { content: diff.changed_line.clone(), color: Some(Color::Green) });
        v.push(plain("\n"));
        assert(spans_view(v@) =~= change_spans(diffs@[i as int]));
        spans.push(v);
        i = i + 1;
    }
    spans
}

/// The time frames a viewer offers.
pub struct UITimeSlots {
    pub slots: Vec<TimeFrame>,
}

/// The title of a viewer.
pub struct UIConfig {
    pub title: String,
}

/// What a viewer's input loop hands on: a key, or the tick of its clock.
pub enum Event<I> {
    Input(I),
    Tick,
}

/// A row of the viewer's second and third tabs.
#[derive(Clone, Debug)]
pub struct LineDifference1 {
    pub name: String,
    pub location: String,
}

/// The state of the dashboard: its tabs, the file and snapshot lists and
/// which of the two panes arrow keys move in.
pub struct App {
    pub title: String,
    pub should_quit: bool,
    pub tabs: TabsState,
    pub show_chart: bool,
    pub filenames: StatefulList<String>,
    pub version_snapshots: StatefulList<String>,
    pub available_versions: Vec<String>,
    pub pane_ptr: i8,
    pub new_version: Vec<LineDifference>,
    pub processed_diffs: Vec<Vec<Span>>,
    pub servers: Vec<LineDifference1>,
}

/// A list with the selection moved to `selected`.
pub open spec fn with_selection<T>(l: StatefulList<T>, selected: usize) -> StatefulList<T> {
    StatefulList { state: ListState { selected: Some(selected) }, items: l.items }
}

/// The dashboard after the up key: the selection of the file list moves up
/// when the pane pointer is positive, else that of the snapshot list.
pub open spec fn after_up(a: App) -> App {
    if a.pane_ptr > 0 {
        let s = previous_selection(a.filenames.state.selected, a.filenames.items@.len());
        App { filenames: with_selection(a.filenames, s), ..a }
    } else {
        let s = previous_selection(
            a.version_snapshots.state.selected,
            a.version_snapshots.items@.len(),
        );
        App { version_snapshots: with_selection(a.version_snapshots, s), ..a }
    }
}

/// The dashboard after the down key: as the up key, downwards.
pub open spec fn after_down(a: App) -> App {
    if a.pane_ptr > 0 {
        let s = next_selection(a.filenames.state.selected, a.filenames.items@.len());
        App { filenames: with_selection(a.filenames, s), ..a }
    } else {
        let s = next_selection(a.version_snapshots.state.selected, a.version_snapshots.items@.len());
        App { version_snapshots: with_selection(a.version_snapshots, s), ..a }
    }
}

/// The dashboard after the right key: the next tab, wrapping to the first.
pub open spec fn after_right(a: App) -> App {
    let i = ((a.tabs.index + 1) % (a.tabs.titles@.len() as int)) as usize;
    App { tabs: TabsState { titles: a.tabs.titles, index: i }, ..a }
}

/// The dashboard after the left key: the previous tab, wrapping to the last.
pub open spec fn after_left(a: App) -> App {
    let i = if a.tabs.index > 0 {
        (a.tabs.index - 1) as usize
    } else {
        (a.tabs.titles@.len() - 1) as usize
    };
    App { tabs: TabsState { titles: a.tabs.titles, index: i }, ..a }
}

/// The dashboard after key `c`: `q` asks to quit, `s` turns the pane
/// pointer round, any other key changes nothing.
pub open spec fn after_key(a: App, c: char) -> App {
    if c == 'q' {
        App { should_quit: true, ..a }
    } else if c == 's' {
        App { pane_ptr: (-a.pane_ptr) as i8, ..a }
    } else {
        a
    }
}

impl App {
    pub fn new(title: &str) -> (r: App)
        ensures
            r.title@ == title@,
            !r.should_quit,
            r.tabs.index == 0,
            r.tabs.titles@.len() == 3,
            r.tabs.titles@[0]@ == "1h"@,
            r.tabs.titles@[1]@ == "24h"@,
            r.tabs.titles@[2]@ == "7 Tage"@,
            r.show_chart,
            r.filenames.items@.len() == 2,
            r.filenames.items@[0]@ == "quix"@,
            r.filenames.items@[1]@ == "quax"@,
            r.filenames.state.selected is None,
            r.version_snapshots.items@.len() == 2,
            r.version_snapshots.items@[0]@ == "foo"@,
            r.version_snapshots.items@[1]@ == "bar"@,
            r.version_snapshots.state.selected is None,
            r.available_versions@.len() == 0,
            r.pane_ptr == 1,
            r.new_version@.len() == 0,
            r.processed_diffs@.len() == 0,
            r.servers@.len() == 1,
            r.servers@[0].name@ == "foo"@,
            r.servers@[0].location@ == "bar"@,
    {
        let mut titles: Vec<String> = Vec::new();
        titles.push("1h".to_owned());
        titles.push("24h".to_owned());
        titles.push("7 Tage".to_owned());
        let mut snapshots: Vec<String> = Vec::new();
        snapshots.push("foo".to_owned());
        snapshots.push("bar".to_owned());
        let mut files: Vec<String> = Vec::new();
        files.push("quix".to_owned());
        files.push("quax".to_owned());
        let mut servers: Vec<LineDifference1> = Vec::new();
        servers.push(LineDifference1 { name: "foo".to_owned(), location: "bar".to_owned() });
        App {
            title: title.to_owned(),
            should_quit: false,
            tabs: TabsState::new(titles),
            show_chart: true,
            version_snapshots: StatefulList::with_items(snapshots),
            filenames: StatefulList::with_items(files),
            available_versions: Vec::new(),
            pane_ptr: 1,
            processed_diffs: Vec::new(),
            new_version: Vec::new(),
            servers,
        }
    }

    /// Moves the selection up in the file list when the pane pointer is
    /// positive, else in the snapshot list; nothing else changes.
    pub fn on_up(&mut self)
        requires
            old(self).pane_ptr > 0 ==> old(self).filenames.items@.len() > 0
                || old(self).filenames.state.selected is None,
            old(self).pane_ptr <= 0 ==> old(self).version_snapshots.items@.len() > 0
                || old(self).version_snapshots.state.selected is None,
        ensures
            *final(self) == after_up(*old(self)),
    {
        if self.pane_ptr > 0 {
            self.filenames.previous();
        } else {
            self.version_snapshots.previous();
        }
    }

    /// Moves the selection down in the file list when the pane pointer is
    /// positive, else in the snapshot list; nothing else changes.
    pub fn on_down(&mut self)
        requires
            old(self).pane_ptr > 0 ==> old(self).filenames.items@.len() > 0
                || old(self).filenames.state.selected is None,
            old(self).pane_ptr <= 0 ==> old(self).version_snapshots.items@.len() > 0
                || old(self).version_snapshots.state.selected is None,
        ensures
            *final(self) == after_down(*old(self)),
    {
        if self.pane_ptr > 0 {
            self.filenames.next();
        } else {
            self.version_snapshots.next();
        }
    }

    /// Shows the next tab; nothing else changes.
    pub fn on_right(&mut self)
        requires
            old(self).tabs.titles@.len() > 0,
            old(self).tabs.index < usize::MAX,
        ensures
            *final(self) == after_right(*old(self)),
    {
        self.tabs.next();
    }

    /// Shows the previous tab; nothing else changes.
    pub fn on_left(&mut self)
        requires
            old(self).tabs.titles@.len() > 0,
        ensures
            *final(self) == after_left(*old(self)),
    {
        self.tabs.previous();
    }

    /// `q` asks to quit; `s` switches the pane the arrows move in; other keys
    /// change nothing.
    pub fn on_key(&mut self, c: char)
        requires
            c == 's' ==> old(self).pane_ptr != i8::MIN,
        ensures
            *final(self) == after_key(*old(self), c),
    {
        match c {
            'q' => {
                self.should_quit = true;
            },
            's' => {
                self.pane_ptr = -self.pane_ptr;
            },
            _ => {},
        }
    }

    /// A tick of the clock changes nothing.
    pub fn on_tick(&mut self)
        ensures
            *final(self) == *old(self),
    {
    }
}

} // verus!
