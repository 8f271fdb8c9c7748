//! Usage endpoints: the query of the daily usage listing.
use vstd::prelude::*;

verus! {

/// Query string of `GET /api/usage/daily`.
pub struct DailyQuery {
    pub days: i64,
}

/// Number of days listed when the query names none.
pub fn default_days() -> (r: i64)
    ensures
        r == 30,
{
    30
}

} // verus!
