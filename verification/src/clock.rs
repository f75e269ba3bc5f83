//! The pinned "now" that reports resolve against.

use vstd::prelude::*;

verus! {

use vstd::string::StringExecFns;
use crate::calendar::date_to_days;
use crate::calendar::days_of_date;
use crate::calendar::lemma_date_in_year;
use crate::calendar::lemma_days_before_year_bounds;
use crate::calendar::lemma_days_before_year_unfold;
use crate::calendar::lemma_days_before_month_full;
use crate::calendar::max_ts;
use crate::calendar::Date;
use crate::errors::WalletError;

/// Relies on chrono::Utc::now and DateTime::timestamp: the current UTC
/// instant, as whole seconds since 1970-01-01T00:00:00Z. Nothing is assumed
/// of the value; every caller checks what came back. (chrono itself aborts
/// on a platform clock that reads before the epoch.)
#[verifier::external_body]
fn current_timestamp() -> i64 {
    chrono::Utc::now().timestamp()
}

/// Reads the clock and pins "now" to an instant the engine accepts: between
/// the epoch and the last representable second. Any other reading is
/// surfaced as a store failure.
pub fn pinned_now() -> (r: Result<i64, WalletError>)
    ensures
        r matches Ok(t) ==> 0 <= t <= max_ts(),
        r matches Err(e) ==> e is Store,
{
    let t = current_timestamp();
    proof {
        lemma_days_before_year_bounds(10000);
        lemma_days_before_year_bounds(9999);
    }
    let last = date_to_days(Date { year: 9999, month: 12, day: 31 });
    proof {
        // the last day of the last year is the last representable day
        lemma_date_in_year(9999, 12, 31);
        lemma_days_before_month_full(9999);
        lemma_days_before_year_unfold(9999);
        assert(days_of_date(9999, 12, 31) == crate::calendar::max_day());
    }
    let limit = last * 86400 + 86399;
    if 0 <= t && t <= limit {
        Ok(t)
    } else {
        Err(WalletError::Store(String::from_str("system clock out of range")))
    }
}

} // verus!
