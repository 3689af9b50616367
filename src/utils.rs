use vstd::prelude::*;

use crate::date::{iso_date, parse_iso_date, Date};
use crate::error::ScrapeError;

verus! {

/// Takes the value out of an occupied slot, leaving it empty.
pub fn to_default<T>(owner: &mut Option<Box<T>>) -> (r: T)
    requires
        *old(owner) is Some,
    ensures
        *final(owner) is None,
        r == *old(owner)->Some_0,
{
    let b = owner.take().unwrap();
    *b
}

/// Puts a value into the slot, in place of whatever it held.
pub fn to_option<T>(owner: &mut Option<Box<T>>, raw: T)
    ensures
        *final(owner) == Some(Box::new(raw)),
{
    *owner = Some(Box::new(raw));
}

/// The year of an ISO date (`2021-08-17` gives 2021).
pub fn to_year(date: String) -> (r: Result<i32, ScrapeError>)
    ensures
        match iso_date(date@) {
            Some(d) => r == Ok::<i32, ScrapeError>(d.year),
            None => r == Err::<i32, ScrapeError>(ScrapeError::Parse(crate::error::Field::Date)),
        },
{
    let d = parse_iso_date(date.as_str())?;
    Ok(d.year)
}

/// The date that an ISO text (`2021-08-17`) stands for.
pub fn to_naive_date(date: String) -> (r: Result<Date, ScrapeError>)
    ensures
        match iso_date(date@) {
            Some(d) => r == Ok::<Date, ScrapeError>(d),
            None => r == Err::<Date, ScrapeError>(ScrapeError::Parse(crate::error::Field::Date)),
        },
{
    parse_iso_date(date.as_str())
}

} // verus!
