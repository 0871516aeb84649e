//! The current wall-clock time, as a [`DateTime`] of this library.
//!
//! The one call into chrono stands behind a trusted wrapper that hands
//! out plain fields; a verified function then folds them into a valid
//! [`DateTime`], clamping any field the wrapper's contract leaves open.

use vstd::prelude::*;
use chrono::Datelike;
use chrono::Timelike;
use crate::date::{DateTime, days_in_month_x};

verus! {

/// Relies on chrono's `Local::now` with `Datelike`/`Timelike`: the local
/// civil time, whose documented field ranges are month 1..=12, day
/// 1..=31, hour 0..=23, minute 0..=59 and second 0..=59. The year is an
/// `i64` with no promised range.
#[verifier::external_body]
fn local_now_fields() -> (t: (i64, u32, u32, u32, u32, u32))
    ensures
        1 <= t.1 <= 12,
        1 <= t.2 <= 31,
        t.3 <= 23,
        t.4 <= 59,
        t.5 <= 59,
{
    let now = chrono::Local::now().naive_local();
    (now.year() as i64, now.month(), now.day(), now.hour(), now.minute(), now.second())
}

/// The current local time. The result is always a valid timestamp: a
/// clock reading outside the model (a year past 9999, or a day the
/// wrapper's contract does not rule out) is clamped to the nearest value
/// inside it.
pub fn now() -> (t: DateTime)
    ensures
        t.valid(),
{
    let (y, month, d, hour, minute, second) = local_now_fields();
    let year: u32 = if y < 0 {
        0
    } else if y > 9999 {
        9999
    } else {
        y as u32
    };
    let dim = days_in_month_x(year, month);
    let day: u32 = if d > dim {
        dim
    } else {
        d
    };
    DateTime { year, month, day, hour, minute, second }
}

} // verus!
