//! Summary statistics shown for one entity's history: the average time
//! between recorded changes, and the command round-trip latency.

use vstd::prelude::*;

verus! {

/// Integer division rounded to the nearest whole number, ties rounded up,
/// for a non-negative dividend and a positive divisor.
pub open spec fn round_div(total: int, count: int) -> int
    recommends
        0 <= total,
        0 < count,
{
    if 2 * (total % count) >= count {
        total / count + 1
    } else {
        total / count
    }
}

/// The change statistics of one entity's history.
#[derive(Clone, Copy, PartialEq, Eq, Structural, Debug)]
pub struct ChangeStats {
    /// How many rows the history holds.
    pub changes: usize,
    /// The span from the first to the last observation, divided by the row
    /// count and rounded to the nearest second.
    pub average_seconds: i64,
    /// `average_seconds` in whole hours.
    pub average_hours: i64,
    /// `average_hours` in whole days.
    pub average_days: i64,
}

/// The average time between changes over the observation instants of one
/// entity's history, oldest first. `None` when fewer than two rows exist:
/// not enough data for an average.
pub fn average_change_stats(times: &Vec<i64>) -> (r: Option<ChangeStats>)
    requires
        forall|i: int| 0 <= i < times@.len() ==> 0 <= #[trigger] times@[i],
        forall|i: int, j: int| 0 <= i <= j < times@.len() ==> times@[i] <= times@[j],
        times@.len() < 0x7fff_ffff_ffff_ffff,
    ensures
        (r is Some) == (times@.len() >= 2),
        r matches Some(st) ==> {
            &&& st.changes == times@.len()
            &&& st.average_seconds == round_div(
                times@.last() - times@.first(),
                times@.len() as int,
            )
            &&& st.average_hours == st.average_seconds / 3600
            &&& st.average_days == st.average_hours / 24
        },
{
    let n = times.len();
    if n < 2 {
        return None;
    }
    let mut total: i64 = 0;
    let mut i: usize = 1;
    while i < n
        invariant
            n == times@.len(),
            2 <= n,
            1 <= i <= n,
            forall|p: int| 0 <= p < times@.len() ==> 0 <= #[trigger] times@[p],
            forall|p: int, q: int| 0 <= p <= q < times@.len() ==> times@[p] <= times@[q],
            total == times@[i - 1] - times@[0],
        decreases n - i,
    {
        total = total + (times[i] - times[i - 1]);
        i += 1;
    }
    let count: i64 = n as i64;
    let q = total / count;
    let rem = total % count;
    proof {
        assert(q + 1 <= i64::MAX) by (nonlinear_arith)
            requires
                0 <= total <= i64::MAX,
                2 <= count,
                q == total / count,
        ;
    }
    let avg = if rem >= count - rem {
        q + 1
    } else {
        q
    };
    let hours = avg / 3600;
    let days = hours / 24;
    Some(ChangeStats { changes: n, average_seconds: avg, average_hours: hours, average_days: days })
}

/// The command round-trip latency in milliseconds: the wall clock at response
/// time, in milliseconds, minus the command's creation second scaled to
/// milliseconds.
pub fn latency_millis(now_millis: i64, created_seconds: i64) -> (r: i64)
    requires
        0 <= created_seconds <= 9_000_000_000_000,
        0 <= now_millis,
    ensures
        r == now_millis - created_seconds * 1000,
{
    now_millis - created_seconds * 1000
}

} // verus!
