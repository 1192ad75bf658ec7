//! The time of day, as the log writes it.

use vstd::prelude::*;

verus! {

/// The local date and time of this moment, written by `chrono` as year, month
/// and day with `-` between them, a space, and hour, minute and second with `:`
/// between them. It calls `chrono::Local::now`, then `DateTime::format` and
/// `to_string` on what that gives. Nothing is claimed of the text, which
/// depends on the clock and the time zone of the machine; `chrono` gives up on
/// a clock that is set before the year 1970.
#[verifier::external_body]
pub(crate) fn now_timestamp() -> (timestamp: String) {
    chrono::Local::now().format("%Y-%m-%d %H:%M:%S").to_string()
}

} // verus!
