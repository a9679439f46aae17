use vstd::prelude::*;

use crate::delta::deltas_view;
use crate::diff::{find_at, find_spec, lines_view};
use crate::exclude::{is_excluded, is_excluded_spec, Exclude};
use crate::materialize::materialize_spec;
use crate::store::{
    appended, cursor_bound, empty_history, position_of, redo_cursor, undo_cursor, HistoryView, Store,
    StoreError,
};
use crate::timeframe::TimeFrame;
use crate::view::{file_view_ok, FileVersions};

verus! {

/// A debounced filesystem event, as the handler sees it.
#[derive(Clone, Debug)]
pub enum FsEvent {
    /// A file was written.
    Write(String),
    /// A file was removed.
    Remove(String),
    /// A write is about to be reported.
    NoticeWrite(String),
    /// Anything else.
    Other,
}

/// What the handler asks its runner to do about a filesystem event.
#[derive(Clone, Debug, PartialEq, Eq)]
pub enum Reaction {
    /// Nothing.
    Ignore,
    /// Read the lines of the file and hand them to `on_file_read`.
    ReadFile(String),
}

/// Owns the store and decides what each event does to it.
pub struct EventHandle {
    pub store: Store,
    pub exclude: Exclude,
    pub stopped: bool,
}

/// The history of `path` after recording a file holding `lines` at `now`.
pub open spec fn recorded(s: Seq<HistoryView>, path: Seq<char>, lines: Seq<Seq<char>>, now: int) -> Seq<
    HistoryView,
> {
    match position_of(s, path) {
        Some(i) => s.update(
            i,
            appended(s[i], find_spec(path, lines, s[i].deltas, now), now),
        ),
        None => s.push(appended(empty_history(path), find_spec(path, lines, Seq::empty(), now), now)),
    }
}

impl EventHandle {
    pub fn new(store: Store, exclude: Exclude) -> (r: EventHandle)
        ensures
            r.store == store,
            r.exclude == exclude,
            !r.stopped,
    {
        EventHandle { store, exclude, stopped: false }
    }

    /// `path` is left out of tracking by this handler's rules: its base name
    /// or the name of any directory on its way is excluded.
    pub open spec fn excludes(&self, path: Seq<char>) -> bool {
        is_excluded_spec(path, self.exclude.files@, self.exclude.paths@)
    }

    /// What a filesystem event calls for: the lines of a written file that is
    /// not excluded, while the handler runs; nothing otherwise.
    pub fn on_fs_event(&self, event: &FsEvent, is_file: bool) -> (r: Reaction)
        ensures
            match event {
                FsEvent::Write(p) => if !self.stopped && is_file && !self.excludes(p@) {
                    match r {
                        Reaction::ReadFile(q) => q@ == p@,
                        Reaction::Ignore => false,
                    }
                } else {
                    r == Reaction::Ignore
                },
                _ => r == Reaction::Ignore,
            },
    {
        match event {
            FsEvent::Write(p) => {
                if !self.stopped && is_file && !is_excluded(
                    p.as_str(),
                    &self.exclude.files,
                    &self.exclude.paths,
                ) {
                    Reaction::ReadFile(p.clone())
                } else {
                    Reaction::Ignore
                }
            },
            _ => Reaction::Ignore,
        }
    }

    /// Records what changed in `path`, which now holds `lines`, as one
    /// snapshot at `now`. An excluded path, or a stopped handler, changes
    /// nothing.
    pub fn on_file_read(&mut self, path: &str, lines: &Vec<String>, now: i64) -> (r: Result<
        (),
        StoreError,
    >)
        requires
            old(self).store.wf(),
        ensures
            final(self).store.wf(),
            final(self).exclude == old(self).exclude,
            final(self).stopped == old(self).stopped,
            final(self).store.time_frame == old(self).store.time_frame,
            r is Ok,
            final(self).store.histories_view() == if old(self).stopped || old(self).excludes(path@) {
                old(self).store.histories_view()
            } else {
                recorded(old(self).store.histories_view(), path@, lines_view(lines@), now as int)
            },
    {
        if self.stopped || is_excluded(path, &self.exclude.files, &self.exclude.paths) {
            return Ok(());
        }
        let prev = self.store.get_file_changes(path);
        let changes = find_at(path, lines, &prev, now);
        proof {
            crate::diff::lemma_find_spec_path(
                path@,
                lines_view(lines@),
                deltas_view(prev@),
                now as int,
            );
            assert forall|k: int| 0 <= k < changes@.len() implies #[trigger] changes@[k].path@
                == path@ by {
                assert(deltas_view(changes@)[k] == changes@[k]@);
                assert(find_spec(path@, lines_view(lines@), deltas_view(prev@), now as int)[k].path
                    == path@);
            }
        }
        self.store.store_changes(path, &changes, now)
    }

    /// Moves the cursor of `path` back by `count` and returns the content the
    /// file, now holding `current`, takes.
    pub fn on_undo(&mut self, path: &str, count: usize, current: &Vec<String>) -> (r: Result<
        Vec<String>,
        StoreError,
    >)
        requires
            old(self).store.wf(),
        ensures
            final(self).store.wf(),
            final(self).store.time_frame == old(self).store.time_frame,
            final(self).stopped == old(self).stopped,
            match position_of(old(self).store.histories_view(), path@) {
                None => r == Err::<Vec<String>, StoreError>(StoreError::UnknownPath)
                    && final(self).store.histories_view() == old(self).store.histories_view(),
                Some(i) => {
                    let h = old(self).store.histories_view()[i];
                    let c = undo_cursor(h.cursor, count as nat);
                    &&& final(self).store.histories_view() == old(
                        self,
                    ).store.histories_view().update(i, HistoryView { cursor: c, ..h })
                    &&& r is Ok
                    &&& lines_view(r->Ok_0@) == materialize_spec(
                        lines_view(current@),
                        h.deltas,
                        cursor_bound(h.timestamps, c),
                    )
                },
            },
    {
        self.store.undo_by(path, count, current)
    }

    /// Moves the cursor of `path` forward by `count` and returns the content
    /// the file, now holding `current`, takes.
    pub fn on_redo(&mut self, path: &str, count: usize, current: &Vec<String>) -> (r: Result<
        Vec<String>,
        StoreError,
    >)
        requires
            old(self).store.wf(),
        ensures
            final(self).store.wf(),
            final(self).store.time_frame == old(self).store.time_frame,
            final(self).stopped == old(self).stopped,
            match position_of(old(self).store.histories_view(), path@) {
                None => r == Err::<Vec<String>, StoreError>(StoreError::UnknownPath)
                    && final(self).store.histories_view() == old(self).store.histories_view(),
                Some(i) => {
                    let h = old(self).store.histories_view()[i];
                    let c = redo_cursor(h.cursor, count as nat, h.timestamps.len());
                    &&& final(self).store.histories_view() == old(
                        self,
                    ).store.histories_view().update(i, HistoryView { cursor: c, ..h })
                    &&& r is Ok
                    &&& lines_view(r->Ok_0@) == materialize_spec(
                        lines_view(current@),
                        h.deltas,
                        cursor_bound(h.timestamps, c),
                    )
                },
            },
    {
        self.store.redo_by(path, count, current)
    }

    /// Sets the time frame of later views.
    pub fn on_time_frame_change(&mut self, time_frame: TimeFrame)
        ensures
            final(self).store.time_frame == time_frame,
            final(self).store.histories_view() == old(self).store.histories_view(),
            final(self).stopped == old(self).stopped,
    {
        self.store.change_time_frame(time_frame);
    }

    /// Stops the handler: later events change nothing.
    pub fn stop(&mut self)
        ensures
            final(self).stopped,
            final(self).store == old(self).store,
    {
        self.stopped = true;
    }

    /// The current view of every history.
    pub fn view(&self, now: i64) -> (r: Vec<Option<FileVersions>>)
        ensures
            r@.len() == self.store.histories_view().len(),
            forall|i: int|
                0 <= i < r@.len() ==> file_view_ok(
                    #[trigger] r@[i],
                    self.store.histories_view()[i],
                    now as int,
                    self.store.time_frame,
                ),
    {
        self.store.view(now)
    }
}

/// The time frame a viewer's tab selects: the first tab an hour, the second
/// a day, the third a week; any other a day.
pub fn time_frame_for_slot(slot: usize) -> (r: TimeFrame)
    ensures
        r == (if slot == 0 {
            TimeFrame::HOUR
        } else if slot == 2 {
            TimeFrame::WEEK
        } else {
            TimeFrame::DAY
        }),
{
    match slot {
        0 => TimeFrame::HOUR,
        1 => TimeFrame::DAY,
        2 => TimeFrame::WEEK,
        _ => TimeFrame::DAY,
    }
}

} // verus!
