use vstd::prelude::*;

use crate::delta::{deltas_view, DeltaView, LineDifference};
use crate::sorting::{key_le, sorted_keys};
use crate::store::{history_wf, non_decreasing, times_view, HistoryView, PathHistory, Store};
use crate::timeframe::{frame_seconds, TimeFrame};

verus! {

/// One snapshot of a file: the boundary that closes it and its changes,
/// most recent first.
#[derive(Clone, Debug)]
pub struct Version {
    pub datetime: i64,
    pub changes: Vec<LineDifference>,
}

/// How many changes the snapshots closed on one day (counted in days since
/// the Unix epoch) hold.
#[derive(Clone, Copy, Debug, PartialEq, Eq)]
pub struct HitsOfCode {
    pub date: i64,
    pub hits: u64,
}

/// What a viewer shows of one file: its snapshots within the time frame,
/// most recent first, and their changes per day.
#[derive(Clone, Debug)]
pub struct FileVersions {
    pub path: String,
    pub versions: Vec<Version>,
    pub hits_of_codes: Vec<HitsOfCode>,
}

/// Milliseconds in a day.
pub const MILLIS_PER_DAY: i64 = 86400000;

/// The instant a view of the given frame starts at, ending `now`.
pub open spec fn window_start(now: int, frame: TimeFrame) -> int {
    now - frame_seconds(frame) * 1000
}

/// The number of boundaries at or before `start`; with boundaries that never
/// decrease, those in the window are the ones after them.
pub open spec fn count_at_or_before(ts: Seq<int>, start: int) -> nat
    decreases ts.len(),
{
    if ts.len() == 0 {
        0
    } else {
        count_at_or_before(ts.drop_last(), start) + if ts.last() <= start {
            1nat
        } else {
            0nat
        }
    }
}

/// The lower end of the snapshot that boundary `j` closes: the boundary
/// before it, or the start of the window for the first boundary inside it.
pub open spec fn lower_end(ts: Seq<int>, first: nat, j: int, start: int) -> int {
    if j == first {
        start
    } else {
        ts[j - 1]
    }
}

/// `(time, position)` of change `a` comes strictly before that of `b`.
pub open spec fn key_lt(a: (int, int), b: (int, int)) -> bool {
    a.0 < b.0 || (a.0 == b.0 && a.1 < b.1)
}

/// `p` lists, most recent first, exactly the positions of `h` recorded in
/// `(lower, upper]`.
pub open spec fn snapshot_positions(p: Seq<int>, h: Seq<DeltaView>, lower: int, upper: int) -> bool {
    &&& forall|i: int|
        0 <= i < p.len() ==> 0 <= #[trigger] p[i] < h.len() && lower < h[p[i]].date_time <= upper
    &&& forall|i: int, j: int|
        0 <= i < j < p.len() ==> key_lt((h[p[j]].date_time, p[j]), (h[p[i]].date_time, p[i]))
    &&& forall|k: int|
        0 <= k < h.len() && lower < #[trigger] h[k].date_time <= upper ==> exists|i: int|
            0 <= i < p.len() && p[i] == k
}

/// `changes` are the changes of `h` recorded in `(lower, upper]`, most
/// recent first (of two recorded at the same instant, the later recorded
/// first).
pub open spec fn is_snapshot(changes: Seq<DeltaView>, h: Seq<DeltaView>, lower: int, upper: int) -> bool {
    exists|p: Seq<int>|
        snapshot_positions(p, h, lower, upper) && p.len() == changes.len() && forall|i: int|
            0 <= i < p.len() ==> changes[i] == h[#[trigger] p[i]]
}

/// The view of one snapshot.
pub open spec fn version_view(v: Version) -> (int, Seq<DeltaView>) {
    (v.datetime as int, deltas_view(v.changes@))
}

/// `versions` are the snapshots of history `h` whose boundaries lie in the
/// window `(start, now]`, most recent first.
pub open spec fn versions_of(
    versions: Seq<(int, Seq<DeltaView>)>,
    h: HistoryView,
    start: int,
    now: int,
) -> bool {
    let ts = h.timestamps;
    let first = count_at_or_before(ts, start);
    let last = count_at_or_before(ts, now);
    &&& versions.len() == last - first
    &&& forall|v: int|
        0 <= v < versions.len() ==> {
            let j = last - 1 - v;
            &&& #[trigger] versions[v].0 == ts[j]
            &&& is_snapshot(versions[v].1, h.deltas, lower_end(ts, first, j, start), ts[j])
        }
}

/// The day, counted from the Unix epoch, of an instant in milliseconds.
pub open spec fn day_of(t: int) -> int {
    t / (MILLIS_PER_DAY as int)
}

/// Changes per day of a list of snapshots: consecutive snapshots of the same
/// day are counted together (a count stops growing at the largest `u64`).
pub open spec fn hits_spec(versions: Seq<(int, Seq<DeltaView>)>) -> Seq<(int, int)>
    decreases versions.len(),
{
    if versions.len() == 0 {
        Seq::empty()
    } else {
        let rest = hits_spec(versions.drop_last());
        let d = day_of(versions.last().0);
        let n = versions.last().1.len() as int;
        if rest.len() > 0 && rest.last().0 == d {
            let sum = rest.last().1 + n;
            rest.update(
                rest.len() - 1,
                (
                    d,
                    if sum > u64::MAX {
                        u64::MAX as int
                    } else {
                        sum
                    },
                ),
            )
        } else {
            rest.push((d, if n > u64::MAX { u64::MAX as int } else { n }))
        }
    }
}

pub open spec fn hits_view(h: Seq<HitsOfCode>) -> Seq<(int, int)> {
    h.map_values(|x: HitsOfCode| (x.date as int, x.hits as int))
}

pub open spec fn versions_view(v: Seq<Version>) -> Seq<(int, Seq<DeltaView>)> {
    v.map_values(|x: Version| version_view(x))
}

/// What a view shows of history `h` at `now`: nothing when no boundary lies
/// within the window ending at `now`; else its path, snapshots and changes
/// per day.
pub open spec fn file_view_ok(r: Option<FileVersions>, h: HistoryView, now: int, frame: TimeFrame) -> bool {
    let start = window_start(now, frame);
    if count_at_or_before(h.timestamps, now) <= count_at_or_before(h.timestamps, start) {
        r is None
    } else {
        &&& r is Some
        &&& r->Some_0.path@ == h.path
        &&& versions_of(versions_view(r->Some_0.versions@), h, start, now)
        &&& hits_view(r->Some_0.hits_of_codes@) == hits_spec(versions_view(r->Some_0.versions@))
    }
}

/// The sorted `(time, position)` keys of `h`: each position once, in
/// ascending order.
pub open spec fn keys_of(keys: Seq<(i64, usize)>, h: Seq<DeltaView>) -> bool {
    &&& keys.len() == h.len()
    &&& forall|q: int|
        0 <= q < keys.len() ==> (#[trigger] keys[q]).1 < h.len() && keys[q].0 == h[keys[q].1 as int].date_time
    &&& forall|q1: int, q2: int|
        0 <= q1 < q2 < keys.len() ==> key_lt(
            (keys[q1].0 as int, keys[q1].1 as int),
            (keys[q2].0 as int, keys[q2].1 as int),
        )
    &&& forall|k: int| 0 <= k < h.len() ==> #[trigger] key_listed(keys, k)
}

/// Position `k` has a key in `keys`.
pub open spec fn key_listed(keys: Seq<(i64, usize)>, k: int) -> bool {
    exists|q: int| 0 <= q < keys.len() && keys[q].1 as int == k
}

/// The `(time, position)` keys of all changes of `deltas`, in ascending
/// order.
fn sorted_positions(deltas: &Vec<LineDifference>) -> (r: Vec<(i64, usize)>)
    ensures
        keys_of(r@, deltas_view(deltas@)),
{
    let ghost dv = deltas_view(deltas@);
    let mut keys: Vec<(i64, usize)> = Vec::new();
    let mut k: usize = 0;
    while k < deltas.len()
        invariant
            k <= deltas.len(),
            dv == deltas_view(deltas@),
            keys@.len() == k,
            forall|i: int| 0 <= i < k ==> #[trigger] keys@[i] == (dv[i].date_time as i64, i as usize),
        decreases deltas.len() - k,
    {
        keys.push((deltas[k].date_time, k));
        k = k + 1;
    }
    let ghost k0 = keys@;
    let r = sorted_keys(keys);
    proof {
        let rs = r@;
        k0.to_multiset_ensures();
        rs.to_multiset_ensures();
        assert(k0.no_duplicates());
        k0.lemma_multiset_has_no_duplicates();
        rs.lemma_multiset_has_no_duplicates_conv();
        assert forall|q: int| 0 <= q < rs.len() implies (#[trigger] rs[q]).1 < dv.len() && rs[q].0
            == dv[rs[q].1 as int].date_time by {
            assert(rs.contains(rs[q]));
            assert(k0.to_multiset().count(rs[q]) > 0);
            assert(k0.contains(rs[q]));
        }
        assert forall|q1: int, q2: int| 0 <= q1 < q2 < rs.len() implies key_lt(
            (rs[q1].0 as int, rs[q1].1 as int),
            (rs[q2].0 as int, rs[q2].1 as int),
        ) by {
            assert(key_le(rs[q1], rs[q2]));
            assert(rs[q1] != rs[q2]);
        }
        assert forall|k: int| 0 <= k < dv.len() implies #[trigger] key_listed(rs, k) by {
            assert(k0[k] == (dv[k].date_time as i64, k as usize));
            assert(k0.contains(k0[k]));
            assert(rs.to_multiset().count(k0[k]) > 0);
            assert(rs.contains(k0[k]));
            let q = choose|q: int| 0 <= q < rs.len() && rs[q] == k0[k];
            assert(rs[q].1 as int == k);
        }
    }
    r
}

/// The changes of `deltas` recorded in `(lower, upper]`, most recent first.
fn snapshot_changes(deltas: &Vec<LineDifference>, keys: &Vec<(i64, usize)>, lower: i128, upper: i64) -> (r:
    Vec<LineDifference>)
    requires
        keys_of(keys@, deltas_view(deltas@)),
    ensures
        is_snapshot(deltas_view(r@), deltas_view(deltas@), lower as int, upper as int),
{
    let ghost dv = deltas_view(deltas@);
    let ghost ks = keys@;
    let ghost mut p: Seq<int> = Seq::empty();
    let ghost mut qs: Seq<int> = Seq::empty();
    let mut out: Vec<LineDifference> = Vec::new();
    let n = keys.len();
    let mut q: usize = n;
    while q > 0
        invariant
            q <= n,
            n == ks.len(),
            ks == keys@,
            dv == deltas_view(deltas@),
            keys_of(ks, dv),
            p.len() == out@.len(),
            qs.len() == out@.len(),
            forall|i: int| 0 <= i < qs.len() ==> q <= #[trigger] qs[i] < n,
            forall|i: int, j: int| 0 <= i < j < qs.len() ==> qs[i] > qs[j],
            forall|i: int|
                0 <= i < p.len() ==> #[trigger] p[i] == ks[qs[i]].1 as int && deltas_view(out@)[i]
                    == dv[p[i]] && lower < dv[p[i]].date_time <= upper,
            forall|q2: int|
                q <= q2 < n && lower < (#[trigger] ks[q2]).0 <= upper ==> exists|i: int|
                    0 <= i < qs.len() && qs[i] == q2,
        decreases q,
    {
        q = q - 1;
        let key = keys[q];
        let ghost qs0 = qs;
        if (key.0 as i128) > lower && key.0 <= upper {
            let d = deltas[key.1].duplicate();
            let ghost before = out@;
            out.push(d);
            proof {
                assert(deltas_view(out@) =~= deltas_view(before).push(d@));
                p = p.push(key.1 as int);
                qs = qs.push(q as int);
                assert forall|q2: int|
                    q <= q2 < n && lower < (#[trigger] ks[q2]).0 <= upper implies exists|i: int|
                        0 <= i < qs.len() && qs[i] == q2 by {
                    if q2 == q {
                        assert(qs[qs.len() - 1] == q2);
                    } else {
                        let i = choose|i: int| 0 <= i < qs0.len() && qs0[i] == q2;
                        assert(qs[i] == q2);
                    }
                }
            }
        }
    }
    proof {
        assert forall|i: int, j: int| 0 <= i < j < p.len() implies key_lt(
            (dv[p[j]].date_time, p[j]),
            (dv[p[i]].date_time, p[i]),
        ) by {
            assert(ks[qs[j]] == ks[qs[j]]);
            assert(p[i] == ks[qs[i]].1 as int);
            assert(p[j] == ks[qs[j]].1 as int);
        }
        assert forall|k: int| 0 <= k < dv.len() && lower < #[trigger] dv[k].date_time <= upper implies exists|i: int|
            0 <= i < p.len() && p[i] == k by {
            assert(key_listed(ks, k));
            let q2 = choose|q2: int| 0 <= q2 < ks.len() && ks[q2].1 as int == k;
            let i = choose|i: int| 0 <= i < qs.len() && qs[i] == q2;
            assert(p[i] == k);
        }
        assert(snapshot_positions(p, dv, lower as int, upper as int));
        assert forall|i: int| 0 <= i < p.len() implies deltas_view(out@)[i] == dv[#[trigger] p[i]] by {}
    }
    out
}

/// The number of boundaries at or before `start`.
fn first_in_window(ts: &Vec<i64>, start: i128) -> (r: usize)
    ensures
        r as nat == count_at_or_before(times_view(ts@), start as int),
        r <= ts.len(),
{
    let ghost tv = times_view(ts@);
    let mut c: usize = 0;
    let mut j: usize = 0;
    while j < ts.len()
        invariant
            j <= ts.len(),
            c <= j,
            tv == times_view(ts@),
            c as nat == count_at_or_before(tv.take(j as int), start as int),
        decreases ts.len() - j,
    {
        assert(tv.take(j + 1).drop_last() =~= tv.take(j as int));
        if (ts[j] as i128) <= start {
            c = c + 1;
        }
        j = j + 1;
    }
    assert(tv.take(ts.len() as int) =~= tv);
    c
}

/// Changes per day of `versions`: consecutive snapshots of the same day are
/// counted together.
pub fn hits_of_codes(versions: &Vec<Version>) -> (r: Vec<HitsOfCode>)
    ensures
        hits_view(r@) == hits_spec(versions_view(versions@)),
{
    let ghost vv = versions_view(versions@);
    let mut out: Vec<HitsOfCode> = Vec::new();
    let mut i: usize = 0;
    while i < versions.len()
        invariant
            i <= versions.len(),
            vv == versions_view(versions@),
            hits_view(out@) == hits_spec(vv.take(i as int)),
        decreases versions.len() - i,
    {
        assert(vv.take(i + 1).drop_last() =~= vv.take(i as int));
        assert(vv.take(i + 1).last() == version_view(versions@[i as int]));
        let date = match versions[i].datetime.checked_div_euclid(MILLIS_PER_DAY) {
            Some(d) => d,
            None => 0,
        };
        let n: u64 = versions[i].changes.len() as u64;
        let len = out.len();
        if len > 0 && out[len - 1].date == date {
            let prev = out[len - 1].hits;
            let sum = prev.saturating_add(n);
            let ghost before = out@;
            out.set(len - 1, HitsOfCode { date, hits: sum });
            assert(hits_view(out@) =~= hits_view(before).update(
                len - 1,
                (date as int, sum as int),
            ));
        } else {
            let ghost before = out@;
            out.push(HitsOfCode { date, hits: n });
            assert(hits_view(out@) =~= hits_view(before).push((date as int, n as int)));
        }
        i = i + 1;
    }
    assert(vv.take(versions.len() as int) =~= vv);
    out
}

/// What a view shows of one history at `now` with the given frame.
pub fn file_view(h: &PathHistory, now: i64, frame: TimeFrame) -> (r: Option<FileVersions>)
    ensures
        file_view_ok(r, h@, now as int, frame),
{
    let ghost hv = h@;
    let ghost tv = hv.timestamps;
    let start: i128 = (now as i128) - (frame.value() as i128) * 1000;
    let first = first_in_window(&h.timestamps, start);
    let last = first_in_window(&h.timestamps, now as i128);
    if last <= first {
        return None;
    }
    let keys = sorted_positions(&h.deltas);
    let mut versions: Vec<Version> = Vec::new();
    let mut v: usize = 0;
    while v < last - first
        invariant
            first < last <= h.timestamps@.len(),
            first as nat == count_at_or_before(tv, start as int),
            last as nat == count_at_or_before(tv, now as int),
            hv == h@,
            tv == hv.timestamps,
            start as int == window_start(now as int, frame),
            keys_of(keys@, hv.deltas),
            v <= last - first,
            versions@.len() == v,
            forall|w: int|
                0 <= w < v ==> {
                    let j = last - 1 - w;
                    &&& #[trigger] versions_view(versions@)[w].0 == tv[j]
                    &&& is_snapshot(
                        versions_view(versions@)[w].1,
                        hv.deltas,
                        lower_end(tv, first as nat, j, start as int),
                        tv[j],
                    )
                },
        decreases last - first - v,
    {
        let j = last - 1 - v;
        let lower: i128 = if j == first {
            start
        } else {
            h.timestamps[j - 1] as i128
        };
        let upper = h.timestamps[j];
        let changes = snapshot_changes(&h.deltas, &keys, lower, upper);
        let ghost before = versions@;
        versions.push(Version { datetime: upper, changes });
        assert forall|w: int| 0 <= w < v + 1 implies versions_view(versions@)[w] == if w < v {
            versions_view(before)[w]
        } else {
            (upper as int, deltas_view(changes@))
        } by {}
        v = v + 1;
    }
    let hits = hits_of_codes(&versions);
    Some(FileVersions { path: h.path.clone(), versions, hits_of_codes: hits })
}

impl Store {
    /// For each history, in order, what a viewer shows of it at `now` within
    /// the store's time frame.
    pub fn view(&self, now: i64) -> (r: Vec<Option<FileVersions>>)
        ensures
            r@.len() == self.histories_view().len(),
            forall|i: int|
                0 <= i < r@.len() ==> file_view_ok(
                    #[trigger] r@[i],
                    self.histories_view()[i],
                    now as int,
                    self.time_frame,
                ),
    {
        let mut out: Vec<Option<FileVersions>> = Vec::new();
        let mut i: usize = 0;
        while i < self.histories.len()
            invariant
                i <= self.histories.len(),
                out@.len() == i,
                forall|k: int|
                    0 <= k < i ==> file_view_ok(
                        #[trigger] out@[k],
                        self.histories_view()[k],
                        now as int,
                        self.time_frame,
                    ),
            decreases self.histories.len() - i,
        {
            out.push(file_view(&self.histories[i], now, self.time_frame));
            i = i + 1;
        }
        out
    }
}

proof fn lemma_count_at_or_before(ts: Seq<int>, start: int)
    requires
        non_decreasing(ts),
    ensures
        count_at_or_before(ts, start) <= ts.len(),
        forall|j: int|
            0 <= j < ts.len() ==> (j < count_at_or_before(ts, start) <==> #[trigger] ts[j] <= start),
    decreases ts.len(),
{
    if ts.len() > 0 {
        let td = ts.drop_last();
        assert forall|i: int, j: int| 0 <= i <= j < td.len() implies td[i] <= td[j] by {
            assert(td[i] == ts[i] && td[j] == ts[j]);
        }
        lemma_count_at_or_before(td, start);
        assert forall|j: int| 0 <= j < ts.len() implies (j < count_at_or_before(ts, start)
            <==> #[trigger] ts[j] <= start) by {
            if j < td.len() {
                assert(td[j] == ts[j]);
                if ts.last() <= start {
                    assert(ts[j] <= ts.last());
                }
            }
        }
    }
}

proof fn lemma_interval_from(ts: Seq<int>, first: nat, start: int, t: int, j: int) -> (r: int)
    requires
        non_decreasing(ts),
        first <= j < ts.len(),
        t <= ts.last(),
        lower_end(ts, first, j, start) < t,
    ensures
        first <= r < ts.len(),
        lower_end(ts, first, r, start) < t <= ts[r],
    decreases ts.len() - j,
{
    if t <= ts[j] {
        j
    } else {
        lemma_interval_from(ts, first, start, t, j + 1)
    }
}

/// The snapshots of a view partition the changes of a well-formed history
/// recorded within its window `(start, now]`: a change recorded outside the
/// window lies in the interval of no snapshot, one recorded inside it in at
/// most one, and in exactly one when nothing was recorded after `now`. (Each
/// snapshot holds, once each, exactly the changes in its interval: see
/// `is_snapshot`.)
pub proof fn lemma_snapshots_partition(h: HistoryView, start: int, now: int, k: int)
    requires
        history_wf(h),
        0 <= k < h.deltas.len(),
    ensures
        ({
            let ts = h.timestamps;
            let first = count_at_or_before(ts, start);
            let last = count_at_or_before(ts, now);
            let t = h.deltas[k].date_time;
            &&& start < t <= now && ts.last() <= now ==> exists|j: int|
                first <= j < last && lower_end(ts, first, j, start) < t <= #[trigger] ts[j]
            &&& forall|j1: int, j2: int|
                first <= j1 < last && first <= j2 < last && lower_end(ts, first, j1, start) < t
                    <= #[trigger] ts[j1] && lower_end(ts, first, j2, start) < t <= #[trigger] ts[j2]
                    ==> j1 == j2
            &&& t <= start || t > now ==> forall|j: int|
                first <= j < last ==> !(lower_end(ts, first, j, start) < t <= #[trigger] ts[j])
        }),
{
    let ts = h.timestamps;
    let first = count_at_or_before(ts, start);
    let last = count_at_or_before(ts, now);
    let t = h.deltas[k].date_time;
    lemma_count_at_or_before(ts, start);
    lemma_count_at_or_before(ts, now);
    if start < t <= now && ts.last() <= now {
        assert(ts[ts.len() - 1] > start);
        assert forall|j: int| 0 <= j < ts.len() implies ts[j] <= now by {
            assert(ts[j] <= ts[ts.len() - 1]);
        }
        assert(ts[ts.len() - 1] <= now);
        assert(last == ts.len());
        let j = lemma_interval_from(ts, first, start, t, first as int);
        assert(lower_end(ts, first, j, start) < t <= ts[j]);
    }
    assert forall|j1: int, j2: int|
        first <= j1 < last && first <= j2 < last && lower_end(ts, first, j1, start) < t
            <= #[trigger] ts[j1] && lower_end(ts, first, j2, start) < t <= #[trigger] ts[j2] implies j1
            == j2 by {
        if j1 < j2 {
            assert(ts[j1] <= ts[j2 - 1]);
        } else if j2 < j1 {
            assert(ts[j2] <= ts[j1 - 1]);
        }
    }
    assert forall|j: int| first <= j < last && (t <= start || t > now) implies !(lower_end(
        ts,
        first,
        j,
        start,
    ) < t <= #[trigger] ts[j]) by {
        if j > first {
            assert(ts[j - 1] > start);
        }
    }
}

} // verus!
