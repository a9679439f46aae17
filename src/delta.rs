use vstd::prelude::*;

use crate::clock::now_millis;

verus! {

/// What a recorded line change is, mathematically.
pub struct DeltaView {
    pub path: Seq<char>,
    pub line_number: nat,
    pub line: Seq<char>,
    pub changed_line: Seq<char>,
    pub date_time: int,
}

/// One recorded change to one line of one file.
///
/// `line` is the previous content of the line (empty for an insertion),
/// `changed_line` its new content (empty for a removal), and `date_time` the
/// moment of recording, in milliseconds since the Unix epoch.
#[derive(Clone, Debug)]
pub struct LineDifference {
    pub path: String,
    pub line_number: usize,
    pub line: String,
    pub changed_line: String,
    pub date_time: i64,
}

impl View for LineDifference {
    type V = DeltaView;

    open spec fn view(&self) -> DeltaView {
        DeltaView {
            path: self.path@,
            line_number: self.line_number as nat,
            line: self.line@,
            changed_line: self.changed_line@,
            date_time: self.date_time as int,
        }
    }
}

/// The models of a sequence of recorded changes.
pub open spec fn deltas_view(s: Seq<LineDifference>) -> Seq<DeltaView> {
    s.map_values(|d: LineDifference| d@)
}

/// Two changes are the same change when they agree on everything but the
/// moment they were recorded.
pub open spec fn same_change(a: DeltaView, b: DeltaView) -> bool {
    a.path == b.path && a.line_number == b.line_number && a.line == b.line
        && a.changed_line == b.changed_line
}

impl LineDifference {
    /// A change recorded at the given moment.
    pub fn new_at(
        path: String,
        line_number: usize,
        line: String,
        changed_line: String,
        date_time: i64,
    ) -> (r: LineDifference)
        ensures
            r@ == (DeltaView {
                path: path@,
                line_number: line_number as nat,
                line: line@,
                changed_line: changed_line@,
                date_time: date_time as int,
            }),
    {
        LineDifference { path, line_number, line, changed_line, date_time }
    }

    /// A change recorded now.
    pub fn new(path: String, line_number: usize, line: String, changed_line: String) -> (r:
        LineDifference)
        ensures
            r.path@ == path@,
            r.line_number == line_number,
            r.line@ == line@,
            r.changed_line@ == changed_line@,
    {
        let date_time = now_millis();
        LineDifference { path, line_number, line, changed_line, date_time }
    }

    /// The empty change: no path, line 0, nothing before and after.
    pub fn token() -> (r: LineDifference)
        ensures
            r.path@ == Seq::<char>::empty(),
            r.line_number == 0,
            r.line@ == Seq::<char>::empty(),
            r.changed_line@ == Seq::<char>::empty(),
    {
        LineDifference::new(String::new(), 0, String::new(), String::new())
    }

    /// A copy with the same model.
    pub fn duplicate(&self) -> (r: LineDifference)
        ensures
            r@ == self@,
    {
        LineDifference {
            path: self.path.clone(),
            line_number: self.line_number,
            line: self.line.clone(),
            changed_line: self.changed_line.clone(),
            date_time: self.date_time,
        }
    }
}

/// How two recording moments order: earlier first.
pub fn sort(date_time_a: i64, date_time_b: i64) -> (r: core::cmp::Ordering)
    ensures
        r == (if date_time_a < date_time_b {
            core::cmp::Ordering::Less
        } else if date_time_a > date_time_b {
            core::cmp::Ordering::Greater
        } else {
            core::cmp::Ordering::Equal
        }),
{
    if date_time_a < date_time_b {
        core::cmp::Ordering::Less
    } else if date_time_a > date_time_b {
        core::cmp::Ordering::Greater
    } else {
        core::cmp::Ordering::Equal
    }
}

impl PartialEq for LineDifference {
    fn eq(&self, other: &LineDifference) -> (r: bool)
        ensures
            r == same_change(self@, other@),
    {
        self.path == other.path && self.line_number == other.line_number && self.line
            == other.line && self.changed_line == other.changed_line
    }
}

impl vstd::std_specs::cmp::PartialEqSpecImpl for LineDifference {
    open spec fn obeys_eq_spec() -> bool {
        true
    }

    open spec fn eq_spec(&self, other: &LineDifference) -> bool {
        same_change(self@, other@)
    }
}

impl Eq for LineDifference {

}

} // verus!
