use vstd::prelude::*;

use crate::clock::now_millis;
use crate::delta::{deltas_view, DeltaView, LineDifference};

verus! {

/// The position of the latest change to line `n` in `h`: the one with the
/// greatest `date_time`, and of those the last one recorded.
pub open spec fn latest(h: Seq<DeltaView>, n: nat) -> Option<int>
    decreases h.len(),
{
    if h.len() == 0 {
        None
    } else {
        let last = h.len() - 1;
        let rest = latest(h.drop_last(), n);
        if h[last].line_number == n && (match rest {
            Some(j) => h[j].date_time <= h[last].date_time,
            None => true,
        }) {
            Some(last)
        } else {
            rest
        }
    }
}

/// What the history says line `n` holds: the new content of its latest change.
pub open spec fn prior_line(h: Seq<DeltaView>, n: nat) -> Option<Seq<char>> {
    match latest(h, n) {
        Some(j) => Some(h[j].changed_line),
        None => None,
    }
}

/// The change to record for line `i` of a file whose lines are `lines`, if any.
pub open spec fn change_at(
    path: Seq<char>,
    lines: Seq<Seq<char>>,
    h: Seq<DeltaView>,
    i: nat,
    now: int,
) -> Option<DeltaView> {
    match prior_line(h, i) {
        Some(p) => if p == lines[i as int] {
            None
        } else {
            Some(
                DeltaView {
                    path,
                    line_number: i,
                    line: p,
                    changed_line: lines[i as int],
                    date_time: now,
                },
            )
        },
        None => Some(
            DeltaView {
                path,
                line_number: i,
                line: Seq::empty(),
                changed_line: lines[i as int],
                date_time: now,
            },
        ),
    }
}

/// The changes to lines `0..m` of the file, in line order.
pub open spec fn changes_upto(
    path: Seq<char>,
    lines: Seq<Seq<char>>,
    h: Seq<DeltaView>,
    now: int,
    m: nat,
) -> Seq<DeltaView>
    decreases m,
{
    if m == 0 {
        Seq::empty()
    } else {
        let rest = changes_upto(path, lines, h, now, (m - 1) as nat);
        match change_at(path, lines, h, (m - 1) as nat, now) {
            Some(d) => rest.push(d),
            None => rest,
        }
    }
}

/// Position `k` holds the latest change of a line at or beyond `count`, and
/// that line still has content: the file has lost it.
pub open spec fn is_lost_line(h: Seq<DeltaView>, k: int, count: nat) -> bool {
    &&& h[k].line_number >= count
    &&& latest(h, h[k].line_number) == Some(k)
    &&& h[k].changed_line.len() > 0
}

/// The removal recorded for a line the file has lost.
pub open spec fn removal_of(path: Seq<char>, d: DeltaView, now: int) -> DeltaView {
    DeltaView {
        path,
        line_number: d.line_number,
        line: d.changed_line,
        changed_line: Seq::empty(),
        date_time: now,
    }
}

/// The removals for the lost lines among positions `0..m` of `h`, in
/// recording order.
pub open spec fn removals_upto(
    path: Seq<char>,
    h: Seq<DeltaView>,
    count: nat,
    now: int,
    m: nat,
) -> Seq<DeltaView>
    decreases m,
{
    if m == 0 {
        Seq::empty()
    } else {
        let rest = removals_upto(path, h, count, now, (m - 1) as nat);
        if is_lost_line(h, m - 1, count) {
            rest.push(removal_of(path, h[m - 1], now))
        } else {
            rest
        }
    }
}

/// The changes that bring history `h` of `path` up to a file holding `lines`,
/// all stamped `now`: one per line that differs from what the history says,
/// in line order, then one removal per line the file no longer has.
pub open spec fn find_spec(path: Seq<char>, lines: Seq<Seq<char>>, h: Seq<DeltaView>, now: int) -> Seq<
    DeltaView,
> {
    changes_upto(path, lines, h, now, lines.len()) + removals_upto(
        path,
        h,
        lines.len(),
        now,
        h.len(),
    )
}

/// The models of the lines of a file.
pub open spec fn lines_view(lines: Seq<String>) -> Seq<Seq<char>> {
    lines.map_values(|l: String| l@)
}

pub proof fn lemma_latest_in_range(h: Seq<DeltaView>, n: nat)
    ensures
        match latest(h, n) {
            Some(j) => 0 <= j < h.len() && h[j].line_number == n,
            None => forall|k: int| 0 <= k < h.len() ==> h[k].line_number != n,
        },
    decreases h.len(),
{
    if h.len() > 0 {
        lemma_latest_in_range(h.drop_last(), n);
        assert forall|k: int| 0 <= k < h.len() - 1 implies h.drop_last()[k] == h[k] by {}
    }
}

/// The position of the latest change to line `n` in `h`.
fn latest_index(h: &Vec<LineDifference>, n: usize) -> (r: Option<usize>)
    ensures
        match r {
            Some(j) => latest(deltas_view(h@), n as nat) == Some(j as int),
            None => latest(deltas_view(h@), n as nat) == None::<int>,
        },
{
    let ghost hv = deltas_view(h@);
    let mut best: Option<usize> = None;
    let mut k: usize = 0;
    while k < h.len()
        invariant
            k <= h.len(),
            hv == deltas_view(h@),
            match best {
                Some(j) => latest(hv.take(k as int), n as nat) == Some(j as int),
                None => latest(hv.take(k as int), n as nat) == None::<int>,
            },
        decreases h.len() - k,
    {
        assert(hv.take(k + 1).drop_last() =~= hv.take(k as int));
        proof {
            lemma_latest_in_range(hv.take(k as int), n as nat);
        }
        if h[k].line_number == n {
            match best {
                Some(j) => {
                    if h[j].date_time <= h[k].date_time {
                        best = Some(k);
                    }
                },
                None => {
                    best = Some(k);
                },
            }
        }
        k = k + 1;
    }
    assert(hv.take(h.len() as int) =~= hv);
    best
}

/// The changes that bring history `prev_changes` of `path` up to a file
/// holding `lines`, all stamped `now`.
pub fn find_at(path: &str, lines: &Vec<String>, prev_changes: &Vec<LineDifference>, now: i64) -> (r:
    Vec<LineDifference>)
    ensures
        deltas_view(r@) == find_spec(path@, lines_view(lines@), deltas_view(prev_changes@), now as int),
{
    let ghost hv = deltas_view(prev_changes@);
    let ghost lv = lines_view(lines@);
    let mut out: Vec<LineDifference> = Vec::new();
    let mut i: usize = 0;
    while i < lines.len()
        invariant
            i <= lines.len(),
            hv == deltas_view(prev_changes@),
            lv == lines_view(lines@),
            deltas_view(out@) == changes_upto(path@, lv, hv, now as int, i as nat),
        decreases lines.len() - i,
    {
        let ghost before = out@;
        match latest_index(prev_changes, i) {
            Some(j) => {
                proof {
                    lemma_latest_in_range(hv, i as nat);
                }
                if prev_changes[j].changed_line != lines[i] {
                    let d = LineDifference::new_at(
                        path.to_owned(),
                        i,
                        prev_changes[j].changed_line.clone(),
                        lines[i].clone(),
                        now,
                    );
                    out.push(d);
                }
            },
            None => {
                let d = LineDifference::new_at(path.to_owned(), i, String::new(), lines[i].clone(), now);
                out.push(d);
            },
        }
        assert(deltas_view(out@) =~= changes_upto(path@, lv, hv, now as int, (i + 1) as nat));
        i = i + 1;
    }
    let ghost changes = deltas_view(out@);
    let mut k: usize = 0;
    while k < prev_changes.len()
        invariant
            k <= prev_changes.len(),
            hv == deltas_view(prev_changes@),
            lv == lines_view(lines@),
            lines.len() == lv.len(),
            changes == changes_upto(path@, lv, hv, now as int, lv.len()),
            deltas_view(out@) == changes + removals_upto(path@, hv, lv.len(), now as int, k as nat),
        decreases prev_changes.len() - k,
    {
        let ghost before = out@;
        let d = &prev_changes[k];
        assert(hv[k as int] == d@);
        if d.line_number >= lines.len() && !d.changed_line.as_str().is_empty() {
            match latest_index(prev_changes, d.line_number) {
                Some(j) => {
                    if j == k {
                        let r = LineDifference::new_at(
                            path.to_owned(),
                            d.line_number,
                            d.changed_line.clone(),
                            String::new(),
                            now,
                        );
                        out.push(r);
                    }
                },
                None => {},
            }
        }
        proof {
            let rk = removals_upto(path@, hv, lv.len(), now as int, k as nat);
            let rk1 = removals_upto(path@, hv, lv.len(), now as int, (k + 1) as nat);
            if is_lost_line(hv, k as int, lv.len()) {
                assert(rk1 == rk.push(removal_of(path@, hv[k as int], now as int)));
                assert(deltas_view(out@) =~= deltas_view(before).push(
                    removal_of(path@, hv[k as int], now as int),
                ));
                assert(deltas_view(out@) =~= changes + rk1);
            } else {
                assert(rk1 == rk);
                assert(out@ == before);
            }
        }
        k = k + 1;
    }
    out
}

/// The changes that bring history `prev_changes` of `path` up to a file
/// holding `lines`, all stamped with one reading of the clock.
pub fn find(path: &str, lines: &Vec<String>, prev_changes: &Vec<LineDifference>) -> (r: Vec<
    LineDifference,
>)
    ensures
        exists|now: i64|
            deltas_view(r@) == find_spec(
                path@,
                lines_view(lines@),
                deltas_view(prev_changes@),
                now as int,
            ),
{
    let now = now_millis();
    find_at(path, lines, prev_changes, now)
}

/// Every change in `a` was recorded no later than every change in `b`.
pub open spec fn recorded_before(a: Seq<DeltaView>, b: Seq<DeltaView>) -> bool {
    forall|i: int, j: int| 0 <= i < a.len() && 0 <= j < b.len() ==> a[i].date_time <= b[j].date_time
}

/// Every change in `h` was recorded at or before `now`.
pub open spec fn all_at_or_before(h: Seq<DeltaView>, now: int) -> bool {
    forall|k: int| 0 <= k < h.len() ==> h[k].date_time <= now
}

proof fn lemma_latest_concat(a: Seq<DeltaView>, b: Seq<DeltaView>, n: nat)
    requires
        recorded_before(a, b),
    ensures
        latest(a + b, n) == match latest(b, n) {
            Some(k) => Some(a.len() + k),
            None => latest(a, n),
        },
    decreases b.len(),
{
    if b.len() == 0 {
        assert(a + b =~= a);
    } else {
        let bd = b.drop_last();
        assert((a + b).drop_last() =~= a + bd);
        assert forall|i: int, j: int| 0 <= i < a.len() && 0 <= j < bd.len() implies a[i].date_time
            <= bd[j].date_time by {
            assert(bd[j] == b[j]);
        }
        lemma_latest_concat(a, bd, n);
        lemma_latest_in_range(a, n);
        lemma_latest_in_range(bd, n);
        assert((a + b)[(a + b).len() - 1] == b[b.len() - 1]);
        match latest(bd, n) {
            Some(k) => {
                assert((a + b)[a.len() + k] == b[k]);
            },
            None => {
                match latest(a, n) {
                    Some(i) => {
                        assert((a + b)[i] == a[i]);
                    },
                    None => {},
                }
            },
        }
    }
}

proof fn lemma_changes_latest(
    path: Seq<char>,
    lines: Seq<Seq<char>>,
    h: Seq<DeltaView>,
    now: int,
    m: nat,
)
    requires
        m <= lines.len(),
    ensures
        ({
            let c = changes_upto(path, lines, h, now, m);
            &&& forall|k: int|
                0 <= k < c.len() ==> c[k].date_time == now && c[k].line_number < m
            &&& forall|n: nat|
                n >= m ==> latest(c, n) == None::<int>
            &&& forall|n: nat|
                n < m ==> prior_line(c, n) == match change_at(path, lines, h, n, now) {
                    Some(x) => Some(x.changed_line),
                    None => None::<Seq<char>>,
                }
        }),
    decreases m,
{
    if m > 0 {
        let m1 = (m - 1) as nat;
        lemma_changes_latest(path, lines, h, now, m1);
        let c1 = changes_upto(path, lines, h, now, m1);
        let c = changes_upto(path, lines, h, now, m);
        match change_at(path, lines, h, m1, now) {
            Some(x) => {
                assert(c == c1.push(x));
                assert(c.drop_last() =~= c1);
                assert forall|n: nat| n >= m implies latest(c, n) == None::<int> by {
                    assert(latest(c1, n) == None::<int>);
                }
                assert forall|n: nat| n < m implies prior_line(c, n) == match change_at(
                    path,
                    lines,
                    h,
                    n,
                    now,
                ) {
                    Some(x) => Some(x.changed_line),
                    None => None::<Seq<char>>,
                } by {
                    lemma_latest_in_range(c1, n);
                    let _ = prior_line(c1, n);
                    if n == m1 {
                        assert(latest(c1, n) == None::<int>);
                    } else {
                        match latest(c1, n) {
                            Some(j) => {
                                assert(c[j] == c1[j]);
                            },
                            None => {},
                        }
                    }
                }
            },
            None => {
                assert(c == c1);
                assert forall|n: nat| n < m implies prior_line(c, n) == match change_at(
                    path,
                    lines,
                    h,
                    n,
                    now,
                ) {
                    Some(x) => Some(x.changed_line),
                    None => None::<Seq<char>>,
                } by {
                    let _ = prior_line(c1, n);
                    if n == m1 {
                        assert(latest(c1, n) == None::<int>);
                    }
                }
            },
        }
    }
}

proof fn lemma_removals_latest(path: Seq<char>, h: Seq<DeltaView>, count: nat, now: int, m: nat)
    requires
        m <= h.len(),
    ensures
        ({
            let r = removals_upto(path, h, count, now, m);
            &&& forall|k: int|
                0 <= k < r.len() ==> r[k].date_time == now && r[k].line_number >= count
                    && r[k].changed_line.len() == 0
            &&& forall|k: int|
                0 <= k < m && is_lost_line(h, k, count) ==> latest(r, h[k].line_number) is Some
        }),
    decreases m,
{
    if m > 0 {
        let m1 = (m - 1) as nat;
        lemma_removals_latest(path, h, count, now, m1);
        let r1 = removals_upto(path, h, count, now, m1);
        let r = removals_upto(path, h, count, now, m);
        if is_lost_line(h, m - 1, count) {
            let y = removal_of(path, h[m - 1], now);
            assert(r == r1.push(y));
            assert(r.drop_last() =~= r1);
            assert forall|k: int| 0 <= k < m && is_lost_line(h, k, count) implies latest(
                r,
                h[k].line_number,
            ) is Some by {
                if k < m - 1 {
                    assert(latest(r1, h[k].line_number) is Some);
                }
            }
        } else {
            assert(r == r1);
        }
    }
}

/// After recording what `find_at` reports, the history says of every line
/// what the file holds: each of its lines has its content, and no line past
/// its end has any.
pub proof fn lemma_find_records(
    path: Seq<char>,
    lines: Seq<Seq<char>>,
    h: Seq<DeltaView>,
    now: int,
)
    requires
        all_at_or_before(h, now),
    ensures
        all_at_or_before(h + find_spec(path, lines, h, now), now),
        forall|n: nat|
            n < lines.len() ==> #[trigger] prior_line(h + find_spec(path, lines, h, now), n) == Some(
                lines[n as int],
            ),
        forall|n: nat|
            n >= lines.len() ==> match #[trigger] prior_line(h + find_spec(path, lines, h, now), n) {
                Some(p) => p.len() == 0,
                None => true,
            },
{
    let d = find_spec(path, lines, h, now);
    let c = changes_upto(path, lines, h, now, lines.len());
    let r = removals_upto(path, h, lines.len(), now, h.len());
    let h2 = h + d;
    lemma_changes_latest(path, lines, h, now, lines.len());
    lemma_removals_latest(path, h, lines.len(), now, h.len());
    assert forall|j: int| 0 <= j < d.len() implies d[j].date_time == now by {
        if j < c.len() {
            assert(d[j] == c[j]);
        } else {
            assert(d[j] == r[j - c.len()]);
        }
    }
    assert forall|k: int| 0 <= k < h2.len() implies h2[k].date_time <= now by {
        if k < h.len() {
            assert(h2[k] == h[k]);
        } else {
            assert(h2[k] == d[k - h.len()]);
        }
    }
    assert forall|i: int, j: int| 0 <= i < h.len() && 0 <= j < d.len() implies h[i].date_time
        <= d[j].date_time by {}
    assert forall|i: int, j: int| 0 <= i < c.len() && 0 <= j < r.len() implies c[i].date_time
        <= r[j].date_time by {}
    assert forall|n: nat|
        #![trigger prior_line(h2, n)]
        (n < lines.len() ==> prior_line(h2, n) == Some(lines[n as int])) && (n >= lines.len()
            ==> match prior_line(h2, n) {
            Some(p) => p.len() == 0,
            None => true,
        }) by {
        lemma_latest_concat(h, d, n);
        lemma_latest_concat(c, r, n);
        lemma_latest_in_range(r, n);
        lemma_latest_in_range(c, n);
        lemma_latest_in_range(h, n);
        let _ = prior_line(c, n);
        let _ = prior_line(h, n);
        if n < lines.len() {
            assert(latest(r, n) == None::<int>);
            match latest(c, n) {
                Some(k) => {
                    assert(d[k] == c[k]);
                    assert(h2[h.len() + k] == d[k]);
                },
                None => {},
            }
        } else {
            assert(latest(c, n) == None::<int>);
            match latest(r, n) {
                Some(k) => {
                    assert(d[c.len() + k] == r[k]);
                    assert(h2[h.len() + c.len() + k] == d[c.len() + k]);
                },
                None => {
                    match latest(h, n) {
                        Some(j) => {
                            assert(h2[j] == h[j]);
                            if h[j].changed_line.len() > 0 {
                                assert(is_lost_line(h, j, lines.len()));
                            }
                        },
                        None => {},
                    }
                },
            }
        }
    }
}

/// Recording what `find_at` reports and asking again about the same file
/// yields nothing: a file that has not changed since its last recording has
/// no changes, provided the clock has not gone back.
pub proof fn lemma_find_idempotent(
    path: Seq<char>,
    lines: Seq<Seq<char>>,
    h: Seq<DeltaView>,
    now: int,
    later: int,
)
    requires
        all_at_or_before(h, now),
    ensures
        find_spec(path, lines, h + find_spec(path, lines, h, now), later) =~= Seq::<DeltaView>::empty(),
{
    let h2 = h + find_spec(path, lines, h, now);
    lemma_find_records(path, lines, h, now);
    lemma_no_changes(path, lines, h2, later, lines.len());
    lemma_no_removals(path, h2, lines.len(), later, h2.len());
}

proof fn lemma_no_changes(path: Seq<char>, lines: Seq<Seq<char>>, h: Seq<DeltaView>, now: int, m: nat)
    requires
        m <= lines.len(),
        forall|n: nat| n < lines.len() ==> #[trigger] prior_line(h, n) == Some(lines[n as int]),
    ensures
        changes_upto(path, lines, h, now, m) == Seq::<DeltaView>::empty(),
    decreases m,
{
    if m > 0 {
        assert(prior_line(h, (m - 1) as nat) == Some(lines[m - 1]));
        lemma_no_changes(path, lines, h, now, (m - 1) as nat);
    }
}

proof fn lemma_no_removals(path: Seq<char>, h: Seq<DeltaView>, count: nat, now: int, m: nat)
    requires
        m <= h.len(),
        forall|n: nat|
            n >= count ==> match #[trigger] prior_line(h, n) {
                Some(p) => p.len() == 0,
                None => true,
            },
    ensures
        removals_upto(path, h, count, now, m) == Seq::<DeltaView>::empty(),
    decreases m,
{
    if m > 0 {
        let k = m - 1;
        if h[k].line_number >= count {
            assert(match prior_line(h, h[k].line_number) {
                Some(p) => p.len() == 0,
                None => true,
            });
        }
        lemma_no_removals(path, h, count, now, (m - 1) as nat);
    }
}

/// Every change `find_at` reports names the file it was asked about.
pub proof fn lemma_find_spec_path(path: Seq<char>, lines: Seq<Seq<char>>, h: Seq<DeltaView>, now: int)
    ensures
        forall|k: int|
            0 <= k < find_spec(path, lines, h, now).len() ==> #[trigger] find_spec(
                path,
                lines,
                h,
                now,
            )[k].path == path,
{
    lemma_changes_path(path, lines, h, now, lines.len());
    lemma_removals_path(path, h, lines.len(), now, h.len());
}

proof fn lemma_changes_path(path: Seq<char>, lines: Seq<Seq<char>>, h: Seq<DeltaView>, now: int, m: nat)
    ensures
        forall|k: int|
            0 <= k < changes_upto(path, lines, h, now, m).len() ==> #[trigger] changes_upto(
                path,
                lines,
                h,
                now,
                m,
            )[k].path == path,
    decreases m,
{
    if m > 0 {
        lemma_changes_path(path, lines, h, now, (m - 1) as nat);
        let c1 = changes_upto(path, lines, h, now, (m - 1) as nat);
        let c = changes_upto(path, lines, h, now, m);
        assert forall|k: int| 0 <= k < c.len() implies #[trigger] c[k].path == path by {
            if k < c1.len() {
                assert(c[k] == c1[k]);
            }
        }
    }
}

proof fn lemma_removals_path(path: Seq<char>, h: Seq<DeltaView>, count: nat, now: int, m: nat)
    ensures
        forall|k: int|
            0 <= k < removals_upto(path, h, count, now, m).len() ==> #[trigger] removals_upto(
                path,
                h,
                count,
                now,
                m,
            )[k].path == path,
    decreases m,
{
    if m > 0 {
        lemma_removals_path(path, h, count, now, (m - 1) as nat);
        let r1 = removals_upto(path, h, count, now, (m - 1) as nat);
        let r = removals_upto(path, h, count, now, m);
        assert forall|k: int| 0 <= k < r.len() implies #[trigger] r[k].path == path by {
            if k < r1.len() {
                assert(r[k] == r1[k]);
            }
        }
    }
}

} // verus!
