use vstd::prelude::*;

use crate::delta::{deltas_view, DeltaView, LineDifference};
use crate::diff::{find_at, find_spec, lemma_find_spec_path, lines_view};
use crate::materialize::{
    bound_view, lemma_materialize_compose, materialize, materialize_spec,
};
use crate::timeframe::TimeFrame;

verus! {

/// What the history of one file is, mathematically.
pub struct HistoryView {
    pub path: Seq<char>,
    pub deltas: Seq<DeltaView>,
    pub timestamps: Seq<int>,
    pub cursor: nat,
}

/// The recorded history of one file: its changes in recording order, the
/// boundaries of its snapshots, and the cursor that undo and redo move.
#[derive(Clone, Debug)]
pub struct PathHistory {
    pub path: String,
    pub deltas: Vec<LineDifference>,
    pub timestamps: Vec<i64>,
    pub cursor: usize,
}

pub open spec fn times_view(ts: Seq<i64>) -> Seq<int> {
    ts.map_values(|t: i64| t as int)
}

impl View for PathHistory {
    type V = HistoryView;

    open spec fn view(&self) -> HistoryView {
        HistoryView {
            path: self.path@,
            deltas: deltas_view(self.deltas@),
            timestamps: times_view(self.timestamps@),
            cursor: self.cursor as nat,
        }
    }
}

/// The boundaries never decrease.
pub open spec fn non_decreasing(ts: Seq<int>) -> bool {
    forall|i: int, j: int| 0 <= i <= j < ts.len() ==> ts[i] <= ts[j]
}

/// A history is well formed: every change belongs to its file, it has at
/// least one boundary, the boundaries never decrease and the last one covers
/// every change, and the cursor stays within the boundaries.
pub open spec fn history_wf(h: HistoryView) -> bool {
    &&& forall|k: int| 0 <= k < h.deltas.len() ==> #[trigger] h.deltas[k].path == h.path
    &&& h.timestamps.len() >= 1
    &&& non_decreasing(h.timestamps)
    &&& forall|k: int|
        0 <= k < h.deltas.len() ==> #[trigger] h.deltas[k].date_time <= h.timestamps.last()
    &&& h.cursor <= h.timestamps.len()
}

/// The position of the history of `path` among `s`.
pub open spec fn position_of(s: Seq<HistoryView>, path: Seq<char>) -> Option<int>
    decreases s.len(),
{
    if s.len() == 0 {
        None
    } else if s.last().path == path {
        Some(s.len() - 1)
    } else {
        position_of(s.drop_last(), path)
    }
}

/// The boundary of a new snapshot: `now`, raised where needed so that the
/// boundaries never decrease and the new one covers every change it closes.
pub open spec fn boundary(ts: Seq<int>, changes: Seq<DeltaView>, now: int) -> int
    decreases changes.len(),
{
    if changes.len() == 0 {
        if ts.len() > 0 && ts.last() > now {
            ts.last()
        } else {
            now
        }
    } else {
        let rest = boundary(ts, changes.drop_last(), now);
        if changes.last().date_time > rest {
            changes.last().date_time
        } else {
            rest
        }
    }
}

/// The history after appending `changes` as one snapshot closed at `now`.
pub open spec fn appended(h: HistoryView, changes: Seq<DeltaView>, now: int) -> HistoryView {
    HistoryView {
        path: h.path,
        deltas: h.deltas + changes,
        timestamps: h.timestamps.push(boundary(h.timestamps, changes, now)),
        cursor: h.cursor + 1,
    }
}

/// The cursor after undoing `n` steps from `c`: never below 0.
pub open spec fn undo_cursor(c: nat, n: nat) -> nat {
    if n >= c {
        0
    } else {
        (c - n) as nat
    }
}

/// The cursor after redoing `n` steps from `c`: never past `len`.
pub open spec fn redo_cursor(c: nat, n: nat, len: nat) -> nat {
    if c + n >= len {
        len
    } else {
        c + n
    }
}

/// The bound on recording times that cursor position `k` stands for: the
/// first `k` snapshots are applied.
pub open spec fn cursor_bound(ts: Seq<int>, k: nat) -> Option<int> {
    if k == 0 {
        None
    } else {
        Some(ts[k - 1])
    }
}

/// Why the store refused an operation.
#[derive(Clone, Copy, Debug, PartialEq, Eq)]
pub enum StoreError {
    /// No history is recorded for the path.
    UnknownPath,
    /// A change names another file than the one it is recorded for.
    PathMismatch,
    /// The path already has a history.
    AlreadyTracked,
    /// A history handed in breaks the rules every history keeps.
    InvalidHistory,
}

/// The histories of all tracked files and the time frame of their views.
#[derive(Clone, Debug)]
pub struct Store {
    pub histories: Vec<PathHistory>,
    pub time_frame: TimeFrame,
}

impl Store {
    pub open spec fn histories_view(&self) -> Seq<HistoryView> {
        self.histories@.map_values(|h: PathHistory| h@)
    }

    /// Every history is well formed and no two share a path.
    pub open spec fn wf(&self) -> bool {
        let s = self.histories_view();
        &&& forall|i: int| 0 <= i < s.len() ==> history_wf(#[trigger] s[i])
        &&& forall|i: int, j: int|
            0 <= i < s.len() && 0 <= j < s.len() && i != j ==> s[i].path != s[j].path
    }

    /// An empty store whose views cover the last hour.
    pub fn new() -> (r: Store)
        ensures
            r.wf(),
            r.histories_view() == Seq::<HistoryView>::empty(),
            r.time_frame == TimeFrame::HOUR,
    {
        let r = Store { histories: Vec::new(), time_frame: TimeFrame::HOUR };
        assert(r.histories_view() =~= Seq::<HistoryView>::empty());
        r
    }

    /// The histories, in the order their files became tracked.
    pub fn histories(&self) -> (r: &Vec<PathHistory>)
        ensures
            r@.map_values(|h: PathHistory| h@) == self.histories_view(),
    {
        &self.histories
    }

    fn position(&self, path: &str) -> (r: Option<usize>)
        ensures
            match r {
                Some(i) => position_of(self.histories_view(), path@) == Some(i as int),
                None => position_of(self.histories_view(), path@) == None::<int>,
            },
    {
        let ghost s = self.histories_view();
        let key = path.to_owned();
        let mut found: Option<usize> = None;
        let mut i: usize = 0;
        while i < self.histories.len()
            invariant
                i <= self.histories.len(),
                s == self.histories_view(),
                key@ == path@,
                match found {
                    Some(j) => position_of(s.take(i as int), path@) == Some(j as int),
                    None => position_of(s.take(i as int), path@) == None::<int>,
                },
            decreases self.histories.len() - i,
        {
            assert(s.take(i + 1).drop_last() =~= s.take(i as int));
            assert(s.take(i + 1).last() == self.histories@[i as int]@);
            if self.histories[i].path == key {
                found = Some(i);
            }
            i = i + 1;
        }
        assert(s.take(self.histories.len() as int) =~= s);
        found
    }

    /// Appends `changes` to the history of `path` as one snapshot closed at
    /// `now` (raised where needed so that boundaries never decrease and the
    /// new one covers the changes), and moves the cursor one step forward. A
    /// path without a history gets one first, with no boundary and the cursor
    /// at 0. Refused when a change names another file.
    pub fn store_changes(&mut self, path: &str, changes: &Vec<LineDifference>, now: i64) -> (r:
        Result<(), StoreError>)
        requires
            old(self).wf(),
        ensures
            final(self).wf(),
            final(self).time_frame == old(self).time_frame,
            (forall|k: int| 0 <= k < changes@.len() ==> #[trigger] changes@[k].path@ == path@) <==> r
                is Ok,
            r is Err ==> r == Err::<(), StoreError>(StoreError::PathMismatch)
                && final(self).histories_view() == old(self).histories_view(),
            r is Ok ==> final(self).histories_view() == match position_of(
                old(self).histories_view(),
                path@,
            ) {
                Some(i) => old(self).histories_view().update(
                    i,
                    appended(old(self).histories_view()[i], deltas_view(changes@), now as int),
                ),
                None => old(self).histories_view().push(
                    appended(empty_history(path@), deltas_view(changes@), now as int),
                ),
            },
    {
        let ghost cv = deltas_view(changes@);
        if !all_of_path(path, changes) {
            return Err(StoreError::PathMismatch);
        }
        let ghost old_s = self.histories_view();
        proof {
            lemma_position_of(old_s, path@);
        }
        match self.position(path) {
            Some(i) => {
                let b = new_boundary(&self.histories[i].timestamps, changes, now);
                let ghost h0 = old_s[i as int];
                proof {
                    lemma_boundary_bounds(h0.timestamps, cv, now as int);
                }
                let mut k: usize = 0;
                while k < changes.len()
                    invariant
                        k <= changes.len(),
                        i < self.histories@.len(),
                        self.time_frame == old(self).time_frame,
                        self.histories@.len() == old_s.len(),
                        cv == deltas_view(changes@),
                        h0 == old_s[i as int],
                        forall|j: int|
                            0 <= j < old_s.len() && j != i ==> #[trigger] self.histories@[j]@
                                == old_s[j],
                        self.histories@[i as int]@ == (HistoryView {
                            deltas: h0.deltas + cv.take(k as int),
                            ..h0
                        }),
                    decreases changes.len() - k,
                {
                    let d = changes[k].duplicate();
                    self.histories[i].deltas.push(d);
                    assert(h0.deltas + cv.take(k + 1) =~= (h0.deltas + cv.take(k as int)).push(
                        cv[k as int],
                    ));
                    assert(deltas_view(self.histories@[i as int].deltas@) =~= h0.deltas + cv.take(
                        k + 1,
                    ));
                    k = k + 1;
                }
                self.histories[i].timestamps.push(b);
                let n = self.histories[i].timestamps.len();
                assert(self.histories[i as int].cursor <= n - 1);
                self.histories[i].cursor = self.histories[i].cursor + 1;
                assert(cv.take(changes.len() as int) =~= cv);
                assert(times_view(self.histories@[i as int].timestamps@) =~= h0.timestamps.push(
                    b as int,
                ));
                assert(self.histories_view() =~= old_s.update(
                    i as int,
                    appended(h0, cv, now as int),
                ));
            },
            None => {
                let empty: Vec<i64> = Vec::new();
                let b = new_boundary(&empty, changes, now);
                proof {
                    lemma_boundary_bounds(Seq::empty(), cv, now as int);
                    assert(times_view(empty@) =~= Seq::<int>::empty());
                }
                let mut deltas: Vec<LineDifference> = Vec::new();
                let mut k: usize = 0;
                while k < changes.len()
                    invariant
                        k <= changes.len(),
                        cv == deltas_view(changes@),
                        deltas_view(deltas@) == cv.take(k as int),
                    decreases changes.len() - k,
                {
                    let d = changes[k].duplicate();
                    let ghost before = deltas@;
                    deltas.push(d);
                    assert(deltas_view(deltas@) =~= deltas_view(before).push(d@));
                    assert(cv.take(k + 1) =~= cv.take(k as int).push(cv[k as int]));
                    assert(deltas_view(deltas@) =~= cv.take(k + 1));
                    k = k + 1;
                }
                assert(cv.take(changes.len() as int) =~= cv);
                let mut timestamps: Vec<i64> = Vec::new();
                timestamps.push(b);
                let h = PathHistory { path: path.to_owned(), deltas, timestamps, cursor: 1 };
                assert(times_view(h.timestamps@) =~= Seq::<int>::empty().push(b as int));
                assert(h@ == appended(empty_history(path@), cv, now as int)) by {
                    assert(Seq::<DeltaView>::empty() + cv =~= cv);
                }
                self.histories.push(h);
                assert(self.histories_view() =~= old_s.push(
                    appended(empty_history(path@), cv, now as int),
                ));
            },
        }
        proof {
            lemma_appended_wf_store(old_s, self.histories_view(), path@, cv, now as int);
        }
        Ok(())
    }

    /// Moves the cursor of `path` back by `count` steps, stopping at 0, and
    /// returns the content a file holding `current` takes at the new cursor:
    /// what the record says at the boundary of the last snapshot still
    /// applied.
    pub fn undo_by(&mut self, path: &str, count: usize, current: &Vec<String>) -> (r: Result<
        Vec<String>,
        StoreError,
    >)
        requires
            old(self).wf(),
        ensures
            final(self).wf(),
            final(self).time_frame == old(self).time_frame,
            match position_of(old(self).histories_view(), path@) {
                None => r == Err::<Vec<String>, StoreError>(StoreError::UnknownPath)
                    && final(self).histories_view() == old(self).histories_view(),
                Some(i) => {
                    let h = old(self).histories_view()[i];
                    let c = undo_cursor(h.cursor, count as nat);
                    &&& final(self).histories_view() == old(self).histories_view().update(
                        i,
                        HistoryView { cursor: c, ..h },
                    )
                    &&& r is Ok
                    &&& lines_view(r->Ok_0@) == materialize_spec(
                        lines_view(current@),
                        h.deltas,
                        cursor_bound(h.timestamps, c),
                    )
                },
            },
    {
        proof {
            lemma_position_of(old(self).histories_view(), path@);
        }
        match self.position(path) {
            None => Err(StoreError::UnknownPath),
            Some(i) => {
                let c = self.histories[i].cursor;
                let target: usize = if count >= c {
                    0
                } else {
                    c - count
                };
                Ok(self.move_cursor(i, target, current))
            },
        }
    }

    /// Moves the cursor of `path` forward by `count` steps, stopping at the
    /// number of boundaries, and returns the content a file holding `current`
    /// takes at the new cursor.
    pub fn redo_by(&mut self, path: &str, count: usize, current: &Vec<String>) -> (r: Result<
        Vec<String>,
        StoreError,
    >)
        requires
            old(self).wf(),
        ensures
            final(self).wf(),
            final(self).time_frame == old(self).time_frame,
            match position_of(old(self).histories_view(), path@) {
                None => r == Err::<Vec<String>, StoreError>(StoreError::UnknownPath)
                    && final(self).histories_view() == old(self).histories_view(),
                Some(i) => {
                    let h = old(self).histories_view()[i];
                    let c = redo_cursor(h.cursor, count as nat, h.timestamps.len());
                    &&& final(self).histories_view() == old(self).histories_view().update(
                        i,
                        HistoryView { cursor: c, ..h },
                    )
                    &&& r is Ok
                    &&& lines_view(r->Ok_0@) == materialize_spec(
                        lines_view(current@),
                        h.deltas,
                        cursor_bound(h.timestamps, c),
                    )
                },
            },
    {
        proof {
            lemma_position_of(old(self).histories_view(), path@);
        }
        match self.position(path) {
            None => Err(StoreError::UnknownPath),
            Some(i) => {
                let c = self.histories[i].cursor;
                let len = self.histories[i].timestamps.len();
                let target: usize = if count >= len - c {
                    len
                } else {
                    c + count
                };
                Ok(self.move_cursor(i, target, current))
            },
        }
    }

    fn move_cursor(&mut self, i: usize, target: usize, current: &Vec<String>) -> (r: Vec<String>)
        requires
            old(self).wf(),
            i < old(self).histories@.len(),
            target <= old(self).histories@[i as int].timestamps@.len(),
        ensures
            final(self).wf(),
            final(self).time_frame == old(self).time_frame,
            final(self).histories_view() == old(self).histories_view().update(
                i as int,
                HistoryView { cursor: target as nat, ..old(self).histories_view()[i as int] },
            ),
            lines_view(r@) == materialize_spec(
                lines_view(current@),
                old(self).histories_view()[i as int].deltas,
                cursor_bound(old(self).histories_view()[i as int].timestamps, target as nat),
            ),
    {
        let ghost old_s = self.histories_view();
        let bound: Option<i64> = if target == 0 {
            None
        } else {
            Some(self.histories[i].timestamps[target - 1])
        };
        let r = materialize(current, &self.histories[i].deltas, bound);
        self.histories[i].cursor = target;
        assert(self.histories_view() =~= old_s.update(
            i as int,
            HistoryView { cursor: target as nat, ..old_s[i as int] },
        ));
        assert(bound_view(bound) == cursor_bound(old_s[i as int].timestamps, target as nat));
        r
    }

    /// Records the initial content of a file that has no history yet: one
    /// addition per line, stamped `now`, as a first snapshot closed at `now`.
    pub fn seed_file(&mut self, path: &str, lines: &Vec<String>, now: i64) -> (r: Result<
        (),
        StoreError,
    >)
        requires
            old(self).wf(),
        ensures
            final(self).wf(),
            final(self).time_frame == old(self).time_frame,
            position_of(old(self).histories_view(), path@) is Some <==> r is Err,
            r is Err ==> r == Err::<(), StoreError>(StoreError::AlreadyTracked)
                && final(self).histories_view() == old(self).histories_view(),
            r is Ok ==> final(self).histories_view() == old(self).histories_view().push(
                appended(
                    empty_history(path@),
                    find_spec(path@, lines_view(lines@), Seq::empty(), now as int),
                    now as int,
                ),
            ),
    {
        if self.position(path).is_some() {
            return Err(StoreError::AlreadyTracked);
        }
        let none: Vec<LineDifference> = Vec::new();
        let changes = find_at(path, lines, &none, now);
        proof {
            assert(deltas_view(none@) =~= Seq::<DeltaView>::empty());
            lemma_find_spec_path(path@, lines_view(lines@), Seq::empty(), now as int);
            assert forall|k: int| 0 <= k < changes@.len() implies #[trigger] changes@[k].path@
                == path@ by {
                assert(deltas_view(changes@)[k] == changes@[k]@);
                assert(find_spec(path@, lines_view(lines@), Seq::empty(), now as int)[k].path == path@);
            }
        }
        self.store_changes(path, &changes, now)
    }

    /// The recorded changes of `path`, in recording order; none for a path
    /// without a history.
    pub fn get_file_changes(&self, path: &str) -> (r: Vec<LineDifference>)
        requires
            self.wf(),
        ensures
            deltas_view(r@) == match position_of(self.histories_view(), path@) {
                Some(i) => self.histories_view()[i].deltas,
                None => Seq::<DeltaView>::empty(),
            },
    {
        proof {
            lemma_position_of(self.histories_view(), path@);
        }
        let mut out: Vec<LineDifference> = Vec::new();
        match self.position(path) {
            Some(i) => {
                let deltas = &self.histories[i].deltas;
                let ghost dv = deltas_view(deltas@);
                let mut k: usize = 0;
                while k < deltas.len()
                    invariant
                        k <= deltas.len(),
                        dv == deltas_view(deltas@),
                        deltas_view(out@) == dv.take(k as int),
                    decreases deltas.len() - k,
                {
                    let d = deltas[k].duplicate();
                    let ghost before = out@;
                    out.push(d);
                    assert(deltas_view(out@) =~= deltas_view(before).push(d@));
                    assert(dv.take(k + 1) =~= dv.take(k as int).push(dv[k as int]));
                    k = k + 1;
                }
                assert(dv.take(deltas.len() as int) =~= dv);
            },
            None => {
                assert(deltas_view(out@) =~= Seq::<DeltaView>::empty());
            },
        }
        out
    }

    /// The cursor of `path`, if it has a history.
    pub fn cursor_of(&self, path: &str) -> (r: Option<usize>)
        ensures
            match position_of(self.histories_view(), path@) {
                Some(i) => r == Some(self.histories_view()[i].cursor as usize),
                None => r is None,
            },
    {
        proof {
            lemma_position_of(self.histories_view(), path@);
        }
        match self.position(path) {
            Some(i) => Some(self.histories[i].cursor),
            None => None,
        }
    }

    /// The number of snapshot boundaries of `path`, if it has a history.
    pub fn version_count(&self, path: &str) -> (r: Option<usize>)
        ensures
            match position_of(self.histories_view(), path@) {
                Some(i) => r == Some(self.histories_view()[i].timestamps.len() as usize),
                None => r is None,
            },
    {
        proof {
            lemma_position_of(self.histories_view(), path@);
        }
        match self.position(path) {
            Some(i) => Some(self.histories[i].timestamps.len()),
            None => None,
        }
    }

    /// Adds a history read back from storage, after checking that it keeps
    /// the rules every history keeps and that its path has no history yet.
    pub fn restore(&mut self, history: PathHistory) -> (r: Result<(), StoreError>)
        requires
            old(self).wf(),
        ensures
            final(self).wf(),
            final(self).time_frame == old(self).time_frame,
            r == Err::<(), StoreError>(StoreError::AlreadyTracked) <==> position_of(
                old(self).histories_view(),
                history@.path,
            ) is Some,
            r == Err::<(), StoreError>(StoreError::InvalidHistory) <==> position_of(
                old(self).histories_view(),
                history@.path,
            ) is None && !history_wf(history@),
            r is Ok ==> final(self).histories_view() == old(self).histories_view().push(history@),
            r is Err ==> final(self).histories_view() == old(self).histories_view(),
    {
        proof {
            lemma_position_of(self.histories_view(), history@.path);
        }
        if self.position(history.path.as_str()).is_some() {
            return Err(StoreError::AlreadyTracked);
        }
        if !is_well_formed(&history) {
            return Err(StoreError::InvalidHistory);
        }
        let ghost old_s = self.histories_view();
        self.histories.push(history);
        assert(self.histories_view() =~= old_s.push(history@));
        Ok(())
    }

    /// Sets the time frame of later views.
    pub fn change_time_frame(&mut self, time_frame: TimeFrame)
        ensures
            final(self).time_frame == time_frame,
            final(self).histories_view() == old(self).histories_view(),
    {
        self.time_frame = time_frame;
    }
}

/// Whether a history keeps the rules every history keeps.
fn is_well_formed(h: &PathHistory) -> (r: bool)
    ensures
        r == history_wf(h@),
{
    let ghost hv = h@;
    let n = h.timestamps.len();
    if n == 0 {
        return false;
    }
    if h.cursor > n {
        return false;
    }
    let last = h.timestamps[n - 1];
    assert(hv.timestamps.len() == n);
    let mut j: usize = 1;
    while j < n
        invariant
            1 <= j <= n,
            n == h.timestamps@.len(),
            hv == h@,
            forall|a: int, b: int| 0 <= a <= b < j ==> hv.timestamps[a] <= hv.timestamps[b],
        decreases n - j,
    {
        if h.timestamps[j - 1] > h.timestamps[j] {
            assert(hv.timestamps[j - 1] > hv.timestamps[j as int]);
            return false;
        }
        assert forall|a: int, b: int| 0 <= a <= b < j + 1 implies hv.timestamps[a]
            <= hv.timestamps[b] by {
            if b == j && a < j {
                assert(hv.timestamps[a] <= hv.timestamps[j - 1]);
            }
        }
        j = j + 1;
    }
    let mut k: usize = 0;
    while k < h.deltas.len()
        invariant
            k <= h.deltas.len(),
            n == h.timestamps@.len(),
            n > 0,
            last == h.timestamps@[n - 1],
            hv == h@,
            forall|m: int| 0 <= m < k ==> #[trigger] hv.deltas[m].path == hv.path
                && hv.deltas[m].date_time <= hv.timestamps.last(),
        decreases h.deltas.len() - k,
    {
        assert(hv.deltas[k as int] == h.deltas@[k as int]@);
        if h.deltas[k].path != h.path {
            assert(hv.deltas[k as int].path != hv.path);
            return false;
        }
        if h.deltas[k].date_time > last {
            assert(hv.deltas[k as int].date_time > hv.timestamps.last());
            return false;
        }
        k = k + 1;
    }
    assert(hv.timestamps.last() == last as int);
    assert forall|m: int| 0 <= m < hv.deltas.len() implies #[trigger] hv.deltas[m].path == hv.path by {}
    assert forall|m: int| 0 <= m < hv.deltas.len() implies #[trigger] hv.deltas[m].date_time
        <= hv.timestamps.last() by {
        assert(hv.deltas[m].path == hv.path);
    }
    true
}

/// Whether every change names `path`.
fn all_of_path(path: &str, changes: &Vec<LineDifference>) -> (r: bool)
    ensures
        r == forall|k: int| 0 <= k < changes@.len() ==> #[trigger] changes@[k].path@ == path@,
{
    let key = path.to_owned();
    let mut k: usize = 0;
    while k < changes.len()
        invariant
            k <= changes.len(),
            key@ == path@,
            forall|j: int| 0 <= j < k ==> #[trigger] changes@[j].path@ == path@,
        decreases changes.len() - k,
    {
        if changes[k].path != key {
            return false;
        }
        k = k + 1;
    }
    true
}

/// A history with nothing recorded yet.
pub open spec fn empty_history(path: Seq<char>) -> HistoryView {
    HistoryView { path, deltas: Seq::empty(), timestamps: Seq::empty(), cursor: 0 }
}

proof fn lemma_position_of(s: Seq<HistoryView>, path: Seq<char>)
    ensures
        match position_of(s, path) {
            Some(i) => 0 <= i < s.len() && s[i].path == path,
            None => forall|i: int| 0 <= i < s.len() ==> s[i].path != path,
        },
    decreases s.len(),
{
    if s.len() > 0 {
        lemma_position_of(s.drop_last(), path);
        assert forall|i: int| 0 <= i < s.len() - 1 implies s.drop_last()[i] == s[i] by {}
    }
}

proof fn lemma_boundary_bounds(ts: Seq<int>, changes: Seq<DeltaView>, now: int)
    ensures
        boundary(ts, changes, now) >= now,
        ts.len() > 0 ==> boundary(ts, changes, now) >= ts.last(),
        forall|k: int|
            0 <= k < changes.len() ==> #[trigger] changes[k].date_time <= boundary(ts, changes, now),
        boundary(ts, changes, now) == now || (ts.len() > 0 && boundary(ts, changes, now) == ts.last())
            || exists|k: int| 0 <= k < changes.len() && #[trigger] changes[k].date_time == boundary(ts, changes, now),
    decreases changes.len(),
{
    if changes.len() > 0 {
        let cd = changes.drop_last();
        lemma_boundary_bounds(ts, cd, now);
        assert forall|k: int| 0 <= k < changes.len() implies #[trigger] changes[k].date_time
            <= boundary(ts, changes, now) by {
            if k < changes.len() - 1 {
                assert(changes[k] == cd[k]);
            }
        }
        if boundary(ts, changes, now) != boundary(ts, cd, now) {
            assert(changes[changes.len() - 1].date_time == boundary(ts, changes, now));
        } else if !(boundary(ts, cd, now) == now || (ts.len() > 0 && boundary(ts, cd, now) == ts.last())) {
            let k = choose|k: int| 0 <= k < cd.len() && #[trigger] cd[k].date_time == boundary(ts, cd, now);
            assert(changes[k] == cd[k]);
        }
    }
}

/// The boundary of a new snapshot of `changes` closed at `now`.
fn new_boundary(ts: &Vec<i64>, changes: &Vec<LineDifference>, now: i64) -> (r: i64)
    ensures
        r as int == boundary(times_view(ts@), deltas_view(changes@), now as int),
{
    let ghost tv = times_view(ts@);
    let ghost cv = deltas_view(changes@);
    let mut b: i64 = now;
    if ts.len() > 0 && ts[ts.len() - 1] > now {
        b = ts[ts.len() - 1];
    }
    let mut k: usize = 0;
    while k < changes.len()
        invariant
            k <= changes.len(),
            tv == times_view(ts@),
            cv == deltas_view(changes@),
            b as int == boundary(tv, cv.take(k as int), now as int),
        decreases changes.len() - k,
    {
        assert(cv.take(k + 1).drop_last() =~= cv.take(k as int));
        assert(cv.take(k + 1).last() == changes@[k as int]@);
        if changes[k].date_time > b {
            b = changes[k].date_time;
        }
        k = k + 1;
    }
    assert(cv.take(changes.len() as int) =~= cv);
    b
}

proof fn lemma_appended_wf(h: HistoryView, changes: Seq<DeltaView>, now: int)
    requires
        history_wf(h) || h == empty_history(h.path),
        forall|k: int| 0 <= k < changes.len() ==> #[trigger] changes[k].path == h.path,
    ensures
        history_wf(appended(h, changes, now)),
{
    let a = appended(h, changes, now);
    let b = boundary(h.timestamps, changes, now);
    lemma_boundary_bounds(h.timestamps, changes, now);
    assert(a.timestamps.last() == b);
    assert forall|k: int| 0 <= k < a.deltas.len() implies #[trigger] a.deltas[k].path == a.path
        && a.deltas[k].date_time <= a.timestamps.last() by {
        if k < h.deltas.len() {
            assert(a.deltas[k] == h.deltas[k]);
        } else {
            assert(a.deltas[k] == changes[k - h.deltas.len()]);
        }
    }
    assert forall|i: int, j: int| 0 <= i <= j < a.timestamps.len() implies a.timestamps[i]
        <= a.timestamps[j] by {
        if j == a.timestamps.len() - 1 && i < j {
            assert(h.timestamps[i] <= h.timestamps.last());
        }
    }
}

proof fn lemma_appended_wf_store(
    old_s: Seq<HistoryView>,
    new_s: Seq<HistoryView>,
    path: Seq<char>,
    changes: Seq<DeltaView>,
    now: int,
)
    requires
        forall|i: int| 0 <= i < old_s.len() ==> history_wf(#[trigger] old_s[i]),
        forall|i: int, j: int|
            0 <= i < old_s.len() && 0 <= j < old_s.len() && i != j ==> old_s[i].path != old_s[j].path,
        forall|k: int| 0 <= k < changes.len() ==> #[trigger] changes[k].path == path,
        new_s == match position_of(old_s, path) {
            Some(i) => old_s.update(i, appended(old_s[i], changes, now)),
            None => old_s.push(appended(empty_history(path), changes, now)),
        },
    ensures
        forall|i: int| 0 <= i < new_s.len() ==> history_wf(#[trigger] new_s[i]),
        forall|i: int, j: int|
            0 <= i < new_s.len() && 0 <= j < new_s.len() && i != j ==> new_s[i].path != new_s[j].path,
{
    lemma_position_of(old_s, path);
    match position_of(old_s, path) {
        Some(i) => {
            lemma_appended_wf(old_s[i], changes, now);
        },
        None => {
            lemma_appended_wf(empty_history(path), changes, now);
        },
    }
}

/// Undoing `n` steps and then redoing `n` steps brings the cursor back, and
/// the file comes back to the content it has at that cursor.
pub proof fn lemma_undo_then_redo(h: HistoryView, n: nat, cur: Seq<Seq<char>>)
    requires
        history_wf(h),
        n <= h.cursor,
        cur.len() <= usize::MAX,
    ensures
        ({
            let ts = h.timestamps;
            let back = undo_cursor(h.cursor, n);
            &&& redo_cursor(back, n, ts.len()) == h.cursor
            &&& materialize_spec(
                materialize_spec(cur, h.deltas, cursor_bound(ts, back)),
                h.deltas,
                cursor_bound(ts, h.cursor),
            ) == materialize_spec(cur, h.deltas, cursor_bound(ts, h.cursor))
        }),
{
    let ts = h.timestamps;
    let back = undo_cursor(h.cursor, n);
    assert(back == h.cursor - n);
    if back > 0 {
        assert(ts[back - 1] <= ts[h.cursor - 1]);
    }
    lemma_materialize_compose(cur, h.deltas, cursor_bound(ts, back), cursor_bound(ts, h.cursor));
}

/// Appending changes to a history keeps every earlier change and adds the
/// new ones after them, adds exactly one boundary and moves the cursor one
/// step forward.
pub proof fn lemma_append_extends(h: HistoryView, changes: Seq<DeltaView>, now: int)
    ensures
        appended(h, changes, now).deltas == h.deltas + changes,
        appended(h, changes, now).deltas.take(h.deltas.len() as int) == h.deltas,
        appended(h, changes, now).timestamps.len() == h.timestamps.len() + 1,
        appended(h, changes, now).cursor == h.cursor + 1,
{
    assert((h.deltas + changes).take(h.deltas.len() as int) =~= h.deltas);
}

/// Undoing more steps than the cursor has leaves it at 0; redoing more steps
/// than remain leaves it at the number of boundaries.
pub proof fn lemma_cursor_clamps(c: nat, k: nat, len: nat)
    requires
        c <= len,
    ensures
        k > c ==> undo_cursor(c, k) == 0,
        k > len - c ==> redo_cursor(c, k, len) == len,
        undo_cursor(c, k) <= c,
        c <= redo_cursor(c, k, len) <= len,
{
}

} // verus!
