use vstd::prelude::*;

verus! {

/// The span of time a view covers, ending now.
#[allow(non_camel_case_types)]
#[derive(Clone, Copy, Debug, PartialEq, Eq)]
pub enum TimeFrame {
    MINUTE,
    HOUR,
    DAY,
    WEEK,
}

/// The length of a time frame in seconds.
pub open spec fn frame_seconds(f: TimeFrame) -> int {
    match f {
        TimeFrame::MINUTE => 60int,
        TimeFrame::HOUR => 3600int,
        TimeFrame::DAY => 86400int,
        TimeFrame::WEEK => 604800int,
    }
}

impl TimeFrame {
    /// The length of this time frame in seconds.
    pub fn value(&self) -> (r: i64)
        ensures
            r == frame_seconds(*self),
    {
        match self {
            TimeFrame::MINUTE => 60,
            TimeFrame::HOUR => 60 * 60,
            TimeFrame::DAY => 24 * 60 * 60,
            TimeFrame::WEEK => 7 * 24 * 60 * 60,
        }
    }
}

} // verus!
