//! Validation of a pledge before it is written.

use vstd::prelude::*;
use crate::catalog::Catalog;
use crate::model::{pledge_check, LedgerError, MAX_PLEDGE_UNITS};

verus! {

/// A pledge that passed the checks, ready to be written in one batch.
pub struct Pledge {
    pub token: String,
    pub country: String,
    pub hours: u64,
    pub timestamp: String,
}

/// Checks a pledge against the catalog and the range of hours, in that
/// order. `hours` is in millionths of an hour; `timestamp` is stored as
/// given.
pub fn check_pledge(
    catalog: &Catalog,
    token: String,
    country: String,
    hours: i64,
    timestamp: String,
) -> (r: Result<Pledge, LedgerError>)
    ensures
        match r {
            Ok(p) => {
                &&& pledge_check(catalog.ids(), country@, hours as int) is Ok
                &&& p.token@ == token@
                &&& p.country@ == country@
                &&& p.hours == hours
                &&& p.timestamp@ == timestamp@
            },
            Err(e) => pledge_check(catalog.ids(), country@, hours as int) == Err::<(), LedgerError>(
                e,
            ),
        },
{
    if !catalog.is_valid(&country) {
        return Err(LedgerError::InvalidCountry);
    }
    if hours < 0 || hours > MAX_PLEDGE_UNITS as i64 {
        return Err(LedgerError::OutOfRange);
    }
    Ok(Pledge { token, country, hours: hours as u64, timestamp })
}

} // verus!
