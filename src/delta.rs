//! Signed spans of time as chrono's `TimeDelta` holds them: whole seconds and
//! a nanosecond remainder.
use vstd::prelude::*;
use chrono::TimeDelta;

verus! {

/// The largest magnitude a span may have: `i64::MAX` milliseconds, in
/// nanoseconds.
pub open spec fn max_span_nanos() -> int {
    i64::MAX as int * 1_000_000
}

/// The span of `secs` seconds plus `nanos` nanoseconds, in nanoseconds.
pub open spec fn span_nanos(secs: i64, nanos: u32) -> int {
    secs as int * 1_000_000_000 + nanos as int
}

/// `Some(v)` when `v` fits in an `i64`.
pub open spec fn fit_i64(v: int) -> Option<i64> {
    if i64::MIN <= v <= i64::MAX {
        Some(v as i64)
    } else {
        None
    }
}

/// A span of time: `secs` whole seconds (rounded down) and `nanos`
/// nanoseconds on top of them.
#[derive(Clone, Copy, PartialEq, Eq, Structural, Debug)]
pub struct Delta {
    pub secs: i64,
    pub nanos: u32,
}

impl Delta {
    /// The remainder is below a second and the span is at most `i64::MAX`
    /// milliseconds either way.
    pub open spec fn wf(&self) -> bool {
        &&& self.nanos < 1_000_000_000
        &&& -max_span_nanos() <= span_nanos(self.secs, self.nanos) <= max_span_nanos()
    }

    pub open spec fn total_nanos(&self) -> int {
        span_nanos(self.secs, self.nanos)
    }

    /// The span of `secs` seconds and `nanos` nanoseconds, if it is one.
    pub fn new(secs: i64, nanos: u32) -> (res: Option<Delta>)
        ensures
            res matches Some(d) ==> d.wf() && d.secs == secs && d.nanos == nanos,
            res.is_none() ==> !(Delta { secs, nanos }).wf(),
    {
        if nanos >= 1_000_000_000 {
            return None;
        }
        let total: i128 = secs as i128 * 1_000_000_000 + nanos as i128;
        let bound: i128 = i64::MAX as i128 * 1_000_000;
        if total > bound || total < -bound {
            None
        } else {
            Some(Delta { secs, nanos })
        }
    }
}

/// Relies on `TimeDelta::new` (it accepts exactly the spans described by
/// [`Delta::wf`]) and `TimeDelta::num_nanoseconds`: the whole nanoseconds,
/// or `None` beyond the range of an `i64`.
#[verifier::external_body]
fn delta_num_nanoseconds(secs: i64, nanos: u32) -> (res: Option<i64>)
    requires
        (Delta { secs, nanos }).wf(),
    ensures
        res == fit_i64(span_nanos(secs, nanos)),
{
    TimeDelta::new(secs, nanos).unwrap().num_nanoseconds()
}

/// Relies on `TimeDelta::new` and `TimeDelta::num_microseconds`: the whole
/// microseconds (rounded towards zero), or `None` beyond the range of an
/// `i64`.
#[verifier::external_body]
fn delta_num_microseconds(secs: i64, nanos: u32) -> (res: Option<i64>)
    requires
        (Delta { secs, nanos }).wf(),
    ensures
        res == fit_i64(crate::duration::tdiv(span_nanos(secs, nanos), 1_000)),
{
    TimeDelta::new(secs, nanos).unwrap().num_microseconds()
}

/// Relies on `TimeDelta::new` and `TimeDelta::num_milliseconds`: the whole
/// milliseconds, rounded towards zero.
#[verifier::external_body]
fn delta_num_milliseconds(secs: i64, nanos: u32) -> (res: i64)
    requires
        (Delta { secs, nanos }).wf(),
    ensures
        res == crate::duration::tdiv(span_nanos(secs, nanos), 1_000_000),
{
    TimeDelta::new(secs, nanos).unwrap().num_milliseconds()
}

impl Delta {
    /// The whole nanoseconds of the span, or `None` beyond an `i64`.
    pub fn num_nanoseconds(&self) -> (res: Option<i64>)
        requires
            self.wf(),
        ensures
            res == fit_i64(self.total_nanos()),
    {
        delta_num_nanoseconds(self.secs, self.nanos)
    }

    /// The whole microseconds of the span (rounded towards zero), or `None`
    /// beyond an `i64`.
    pub fn num_microseconds(&self) -> (res: Option<i64>)
        requires
            self.wf(),
        ensures
            res == fit_i64(crate::duration::tdiv(self.total_nanos(), 1_000)),
    {
        delta_num_microseconds(self.secs, self.nanos)
    }

    /// The whole milliseconds of the span, rounded towards zero.
    pub fn num_milliseconds(&self) -> (res: i64)
        requires
            self.wf(),
        ensures
            res == crate::duration::tdiv(self.total_nanos(), 1_000_000),
    {
        delta_num_milliseconds(self.secs, self.nanos)
    }
}

} // verus!
