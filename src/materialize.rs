use vstd::prelude::*;

use crate::delta::{deltas_view, DeltaView, LineDifference};
use crate::diff::{
    all_at_or_before, find_spec, latest, lemma_find_records, lemma_latest_in_range, lines_view,
    prior_line,
};

verus! {

/// The position of the latest change to line `n` among the changes of `h`
/// recorded at or before `b`.
pub open spec fn latest_until(h: Seq<DeltaView>, n: nat, b: int) -> Option<int>
    decreases h.len(),
{
    if h.len() == 0 {
        None
    } else {
        let last = h.len() - 1;
        let rest = latest_until(h.drop_last(), n, b);
        if h[last].line_number == n && h[last].date_time <= b && (match rest {
            Some(j) => h[j].date_time <= h[last].date_time,
            None => true,
        }) {
            Some(last)
        } else {
            rest
        }
    }
}

/// What the record says line `n` held at `bound`; with no bound the record
/// says nothing.
pub open spec fn state_at(h: Seq<DeltaView>, n: nat, bound: Option<int>) -> Option<Seq<char>> {
    match bound {
        Some(b) => match latest_until(h, n, b) {
            Some(j) => Some(h[j].changed_line),
            None => None,
        },
        None => None,
    }
}

/// One past the greatest line number recorded at `bound`, kept within what a
/// vector can index.
pub open spec fn span(h: Seq<DeltaView>, bound: Option<int>) -> nat
    decreases h.len(),
{
    if h.len() == 0 {
        0
    } else {
        let rest = span(h.drop_last(), bound);
        let d = h[h.len() - 1];
        let here: nat = match bound {
            Some(b) => if d.date_time <= b {
                if d.line_number < usize::MAX {
                    d.line_number + 1
                } else {
                    usize::MAX as nat
                }
            } else {
                0
            },
            None => 0,
        };
        if here > rest {
            here
        } else {
            rest
        }
    }
}

/// Line `i` as the record at `bound` has it, or as the file `cur` has it
/// where the record says nothing.
pub open spec fn base_line(cur: Seq<Seq<char>>, h: Seq<DeltaView>, bound: Option<int>, i: nat) -> Seq<
    char,
> {
    match state_at(h, i, bound) {
        Some(x) => x,
        None => if i < cur.len() {
            cur[i as int]
        } else {
            Seq::empty()
        },
    }
}

/// Line `i` is absent at `bound`: it comes out empty, which at the end of a
/// file reads as a removed line.
pub open spec fn is_absent(cur: Seq<Seq<char>>, h: Seq<DeltaView>, bound: Option<int>, i: nat) -> bool {
    base_line(cur, h, bound, i).len() == 0
}

/// The number of lines among the first `n` that remain once the absent
/// lines at the end are dropped.
pub open spec fn kept_len(cur: Seq<Seq<char>>, h: Seq<DeltaView>, bound: Option<int>, n: nat) -> nat
    decreases n,
{
    if n == 0 {
        0
    } else if is_absent(cur, h, bound, (n - 1) as nat) {
        kept_len(cur, h, bound, (n - 1) as nat)
    } else {
        n
    }
}

/// The number of lines considered: those of the file and those recorded.
pub open spec fn considered_len(cur: Seq<Seq<char>>, h: Seq<DeltaView>, bound: Option<int>) -> nat {
    if cur.len() > span(h, bound) {
        cur.len()
    } else {
        span(h, bound)
    }
}

/// The content of a file holding `cur` once it is brought to what the record
/// `h` says at `bound`: every line the record covers takes its recorded
/// content, the others keep theirs, and the empty lines at the end go (the
/// record cannot tell an empty last line from a removed one).
pub open spec fn materialize_spec(cur: Seq<Seq<char>>, h: Seq<DeltaView>, bound: Option<int>) -> Seq<
    Seq<char>,
> {
    Seq::new(
        kept_len(cur, h, bound, considered_len(cur, h, bound)),
        |i: int| base_line(cur, h, bound, i as nat),
    )
}

/// A bound on recording times, as an integer.
pub open spec fn bound_view(bound: Option<i64>) -> Option<int> {
    match bound {
        Some(b) => Some(b as int),
        None => None,
    }
}

proof fn lemma_latest_until_in_range(h: Seq<DeltaView>, n: nat, b: int)
    ensures
        match latest_until(h, n, b) {
            Some(j) => 0 <= j < h.len() && h[j].line_number == n && h[j].date_time <= b,
            None => true,
        },
    decreases h.len(),
{
    if h.len() > 0 {
        lemma_latest_until_in_range(h.drop_last(), n, b);
    }
}

/// The position of the latest change to line `n` recorded at or before `b`.
fn latest_index_until(h: &Vec<LineDifference>, n: usize, b: i64) -> (r: Option<usize>)
    ensures
        match r {
            Some(j) => latest_until(deltas_view(h@), n as nat, b as int) == Some(j as int),
            None => latest_until(deltas_view(h@), n as nat, b as int) == None::<int>,
        },
{
    let ghost hv = deltas_view(h@);
    let mut best: Option<usize> = None;
    let mut k: usize = 0;
    while k < h.len()
        invariant
            k <= h.len(),
            hv == deltas_view(h@),
            match best {
                Some(j) => latest_until(hv.take(k as int), n as nat, b as int) == Some(j as int),
                None => latest_until(hv.take(k as int), n as nat, b as int) == None::<int>,
            },
        decreases h.len() - k,
    {
        assert(hv.take(k + 1).drop_last() =~= hv.take(k as int));
        proof {
            lemma_latest_until_in_range(hv.take(k as int), n as nat, b as int);
        }
        if h[k].line_number == n && h[k].date_time <= b {
            match best {
                Some(j) => {
                    if h[j].date_time <= h[k].date_time {
                        best = Some(k);
                    }
                },
                None => {
                    best = Some(k);
                },
            }
        }
        k = k + 1;
    }
    assert(hv.take(h.len() as int) =~= hv);
    best
}

/// What the record says line `n` held at `bound`.
fn state_of(h: &Vec<LineDifference>, n: usize, bound: Option<i64>) -> (r: Option<&String>)
    ensures
        match r {
            Some(s) => state_at(deltas_view(h@), n as nat, bound_view(bound)) == Some(s@),
            None => state_at(deltas_view(h@), n as nat, bound_view(bound)) == None::<
                Seq<char>,
            >,
        },
{
    match bound {
        Some(b) => match latest_index_until(h, n, b) {
            Some(j) => {
                proof {
                    lemma_latest_until_in_range(deltas_view(h@), n as nat, b as int);
                }
                Some(&h[j].changed_line)
            },
            None => None,
        },
        None => None,
    }
}

/// One past the greatest line number recorded at `bound`.
fn span_of(h: &Vec<LineDifference>, bound: Option<i64>) -> (r: usize)
    ensures
        r as nat == span(deltas_view(h@), bound_view(bound)),
{
    let ghost hv = deltas_view(h@);
    let ghost bv = bound_view(bound);
    let mut s: usize = 0;
    let mut k: usize = 0;
    while k < h.len()
        invariant
            k <= h.len(),
            hv == deltas_view(h@),
            bv == bound_view(bound),
            s as nat == span(hv.take(k as int), bv),
        decreases h.len() - k,
    {
        assert(hv.take(k + 1).drop_last() =~= hv.take(k as int));
        assert(hv.take(k + 1)[k as int] == h[k as int]@);
        let here: usize = match bound {
            Some(b) => if h[k].date_time <= b {
                if h[k].line_number < usize::MAX {
                    h[k].line_number + 1
                } else {
                    usize::MAX
                }
            } else {
                0
            },
            None => 0,
        };
        if here > s {
            s = here;
        }
        k = k + 1;
    }
    assert(hv.take(h.len() as int) =~= hv);
    s
}

/// The content of a file holding `cur` once it is brought to what the record
/// `h` says at `bound` (no bound: the record says nothing).
pub fn materialize(cur: &Vec<String>, h: &Vec<LineDifference>, bound: Option<i64>) -> (r: Vec<String>)
    ensures
        lines_view(r@) == materialize_spec(lines_view(cur@), deltas_view(h@), bound_view(bound)),
{
    let ghost cv = lines_view(cur@);
    let ghost hv = deltas_view(h@);
    let ghost bv = bound_view(bound);
    let sp = span_of(h, bound);
    let n: usize = if cur.len() > sp {
        cur.len()
    } else {
        sp
    };
    let mut out: Vec<String> = Vec::new();
    let mut absent: Vec<bool> = Vec::new();
    let mut i: usize = 0;
    while i < n
        invariant
            i <= n,
            n as nat == considered_len(cv, hv, bv),
            cv == lines_view(cur@),
            hv == deltas_view(h@),
            bv == bound_view(bound),
            out.len() == i,
            absent.len() == i,
            forall|k: int| 0 <= k < i ==> #[trigger] out@[k]@ == base_line(cv, hv, bv, k as nat),
            forall|k: int| 0 <= k < i ==> #[trigger] absent@[k] == is_absent(cv, hv, bv, k as nat),
        decreases n - i,
    {
        match state_of(h, i, bound) {
            Some(s) => {
                out.push(s.clone());
                absent.push(s.as_str().is_empty());
            },
            None => {
                if i < cur.len() {
                    out.push(cur[i].clone());
                    absent.push(cur[i].as_str().is_empty());
                } else {
                    out.push(String::new());
                    absent.push(true);
                }
            },
        }
        i = i + 1;
    }
    let mut t: usize = n;
    while t > 0 && absent[t - 1]
        invariant
            t <= n,
            absent.len() == n,
            out.len() == n,
            forall|k: int| 0 <= k < n ==> #[trigger] absent@[k] == is_absent(cv, hv, bv, k as nat),
            kept_len(cv, hv, bv, t as nat) == kept_len(cv, hv, bv, n as nat),
        decreases t,
    {
        t = t - 1;
    }
    out.truncate(t);
    assert(kept_len(cv, hv, bv, t as nat) == t);
    assert(lines_view(out@) =~= materialize_spec(cv, hv, bv));
    out
}

proof fn lemma_latest_until_unbounded(h: Seq<DeltaView>, n: nat, b: int)
    requires
        all_at_or_before(h, b),
    ensures
        latest_until(h, n, b) == latest(h, n),
    decreases h.len(),
{
    if h.len() > 0 {
        let hd = h.drop_last();
        assert forall|k: int| 0 <= k < hd.len() implies hd[k].date_time <= b by {
            assert(hd[k] == h[k]);
        }
        lemma_latest_until_unbounded(hd, n, b);
    }
}

proof fn lemma_kept_len_skips_absent(
    cur: Seq<Seq<char>>,
    h: Seq<DeltaView>,
    bound: Option<int>,
    lo: nat,
    n: nat,
)
    requires
        lo <= n,
        forall|i: nat| lo <= i < n ==> #[trigger] is_absent(cur, h, bound, i),
    ensures
        kept_len(cur, h, bound, n) == kept_len(cur, h, bound, lo),
    decreases n,
{
    if n > lo {
        assert(is_absent(cur, h, bound, (n - 1) as nat));
        lemma_kept_len_skips_absent(cur, h, bound, lo, (n - 1) as nat);
    }
}

/// Recording a file's content and bringing the file to the record at any
/// bound no earlier than that recording gives the same content back, unless
/// its last line is empty (an empty line at the end reads as a removal).
pub proof fn lemma_materialize_round_trip(
    path: Seq<char>,
    lines: Seq<Seq<char>>,
    h: Seq<DeltaView>,
    now: int,
    b: int,
)
    requires
        all_at_or_before(h, now),
        now <= b,
        lines.len() == 0 || lines[lines.len() - 1].len() > 0,
    ensures
        materialize_spec(lines, h + find_spec(path, lines, h, now), Some(b)) == lines,
{
    let h2 = h + find_spec(path, lines, h, now);
    lemma_find_records(path, lines, h, now);
    assert forall|i: nat| #![trigger state_at(h2, i, Some(b))]
        state_at(h2, i, Some(b)) == prior_line(h2, i) by {
        lemma_latest_until_unbounded(h2, i, b);
        lemma_latest_in_range(h2, i);
    }
    let n = considered_len(lines, h2, Some(b));
    assert forall|i: nat| lines.len() <= i < n implies #[trigger] is_absent(lines, h2, Some(b), i) by {
        assert(state_at(h2, i, Some(b)) == prior_line(h2, i));
    }
    lemma_kept_len_skips_absent(lines, h2, Some(b), lines.len(), n);
    if lines.len() > 0 {
        let last = (lines.len() - 1) as nat;
        assert(state_at(h2, last, Some(b)) == prior_line(h2, last));
        assert(!is_absent(lines, h2, Some(b), last));
    }
    assert forall|i: int| 0 <= i < lines.len() implies base_line(lines, h2, Some(b), i as nat)
        == lines[i] by {
        assert(state_at(h2, i as nat, Some(b)) == prior_line(h2, i as nat));
    }
    assert(materialize_spec(lines, h2, Some(b)) =~= lines);
}

/// Bound `a` admits no change that bound `b` leaves out.
pub open spec fn bound_le(a: Option<int>, b: Option<int>) -> bool {
    match (a, b) {
        (None, _) => true,
        (Some(x), Some(y)) => x <= y,
        (Some(_), None) => false,
    }
}

proof fn lemma_latest_until_some(h: Seq<DeltaView>, n: nat, b: int)
    ensures
        latest_until(h, n, b) is Some <==> exists|k: int|
            0 <= k < h.len() && h[k].line_number == n && #[trigger] h[k].date_time <= b,
    decreases h.len(),
{
    if h.len() > 0 {
        let hd = h.drop_last();
        lemma_latest_until_some(hd, n, b);
        if exists|k: int| 0 <= k < h.len() && h[k].line_number == n && #[trigger] h[k].date_time <= b {
            let k = choose|k: int| 0 <= k < h.len() && h[k].line_number == n && #[trigger] h[k].date_time <= b;
            if k < h.len() - 1 {
                assert(hd[k] == h[k]);
            }
        }
        if exists|k: int| 0 <= k < hd.len() && hd[k].line_number == n && #[trigger] hd[k].date_time <= b {
            let k = choose|k: int| 0 <= k < hd.len() && hd[k].line_number == n && #[trigger] hd[k].date_time <= b;
            assert(h[k] == hd[k]);
        }
    }
}

proof fn lemma_state_monotone(h: Seq<DeltaView>, i: nat, b1: Option<int>, b2: Option<int>)
    requires
        bound_le(b1, b2),
        state_at(h, i, b1) is Some,
    ensures
        state_at(h, i, b2) is Some,
{
    match (b1, b2) {
        (Some(x), Some(y)) => {
            lemma_latest_until_some(h, i, x);
            lemma_latest_until_some(h, i, y);
            let k = choose|k: int| 0 <= k < h.len() && h[k].line_number == i && #[trigger] h[k].date_time <= x;
            assert(h[k].date_time <= y);
        },
        _ => {},
    }
}

proof fn lemma_span_covers(h: Seq<DeltaView>, bound: Option<int>, i: nat)
    requires
        state_at(h, i, bound) is Some,
        i < usize::MAX,
    ensures
        i < span(h, bound),
    decreases h.len(),
{
    let b = bound->Some_0;
    let hd = h.drop_last();
    let last = h.len() - 1;
    lemma_latest_until_in_range(h, i, b);
    if latest_until(h, i, b) == Some(last) {
    } else {
        assert(latest_until(hd, i, b) == latest_until(h, i, b));
        lemma_span_covers(hd, bound, i);
    }
}

proof fn lemma_span_bounded(h: Seq<DeltaView>, bound: Option<int>)
    ensures
        span(h, bound) <= usize::MAX,
    decreases h.len(),
{
    if h.len() > 0 {
        lemma_span_bounded(h.drop_last(), bound);
    }
}

proof fn lemma_kept_len(cur: Seq<Seq<char>>, h: Seq<DeltaView>, bound: Option<int>, n: nat)
    ensures
        kept_len(cur, h, bound, n) <= n,
        forall|i: nat| i < n && !is_absent(cur, h, bound, i) ==> i < kept_len(cur, h, bound, n),
        kept_len(cur, h, bound, n) > 0 ==> !is_absent(
            cur,
            h,
            bound,
            (kept_len(cur, h, bound, n) - 1) as nat,
        ),
        forall|i: nat| kept_len(cur, h, bound, n) <= i < n ==> is_absent(cur, h, bound, i),
    decreases n,
{
    if n > 0 {
        lemma_kept_len(cur, h, bound, (n - 1) as nat);
    }
}

proof fn lemma_kept_len_agree(
    c1: Seq<Seq<char>>,
    c2: Seq<Seq<char>>,
    h: Seq<DeltaView>,
    bound: Option<int>,
    n: nat,
)
    requires
        forall|i: nat| i < n ==> is_absent(c1, h, bound, i) == is_absent(c2, h, bound, i),
    ensures
        kept_len(c1, h, bound, n) == kept_len(c2, h, bound, n),
    decreases n,
{
    if n > 0 {
        lemma_kept_len_agree(c1, c2, h, bound, (n - 1) as nat);
    }
}

/// Bringing a file to the record at one bound and then at a later one is
/// the same as bringing it to the later one directly.
pub proof fn lemma_materialize_compose(
    cur: Seq<Seq<char>>,
    h: Seq<DeltaView>,
    b1: Option<int>,
    b2: Option<int>,
)
    requires
        bound_le(b1, b2),
        cur.len() <= usize::MAX,
    ensures
        materialize_spec(materialize_spec(cur, h, b1), h, b2) == materialize_spec(cur, h, b2),
{
    let c = materialize_spec(cur, h, b1);
    let n1 = considered_len(cur, h, b1);
    let lc = kept_len(cur, h, b1, n1);
    lemma_kept_len(cur, h, b1, n1);
    lemma_span_bounded(h, b1);
    lemma_span_bounded(h, b2);
    assert(c.len() == lc);
    assert forall|i: nat| #[trigger] state_at(h, i, b2) is None implies state_at(h, i, b1) is None by {
        if state_at(h, i, b1) is Some {
            lemma_state_monotone(h, i, b1, b2);
        }
    }
    assert forall|i: nat| #[trigger] base_line(c, h, b2, i) == base_line(cur, h, b2, i) by {
        if state_at(h, i, b2) is None {
            assert(state_at(h, i, b1) is None);
            if i < lc {
                assert(c[i as int] == base_line(cur, h, b1, i));
            } else if i < cur.len() {
                assert(is_absent(cur, h, b1, i));
            }
        }
    }
    let nc = considered_len(c, h, b2);
    let ns = considered_len(cur, h, b2);
    let m = if nc > ns {
        nc
    } else {
        ns
    };
    assert forall|i: nat| i < m implies #[trigger] is_absent(c, h, b2, i) == is_absent(cur, h, b2, i) by {
        assert(base_line(c, h, b2, i) == base_line(cur, h, b2, i));
    }
    assert forall|i: nat| nc <= i < m implies #[trigger] is_absent(c, h, b2, i) by {
        if state_at(h, i, b2) is Some {
            lemma_span_covers(h, b2, i);
        }
    }
    assert forall|i: nat| ns <= i < m implies #[trigger] is_absent(cur, h, b2, i) by {
        if state_at(h, i, b2) is Some {
            lemma_span_covers(h, b2, i);
        }
    }
    lemma_kept_len_skips_absent(c, h, b2, nc, m);
    lemma_kept_len_skips_absent(cur, h, b2, ns, m);
    lemma_kept_len_agree(c, cur, h, b2, m);
    assert forall|i: int| 0 <= i < materialize_spec(cur, h, b2).len() implies materialize_spec(
        c,
        h,
        b2,
    )[i] == materialize_spec(cur, h, b2)[i] by {
        assert(base_line(c, h, b2, i as nat) == base_line(cur, h, b2, i as nat));
    }
    assert(materialize_spec(c, h, b2) =~= materialize_spec(cur, h, b2));
}

} // verus!
