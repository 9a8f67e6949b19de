//! Time handling according to the CF conventions.
use vstd::prelude::*;

pub mod calendars;
pub mod constants;
pub mod datetimes;
pub mod rules;
pub mod units;

pub use units::{cf_parser, Date, DateTime, Duration, ParseError, Time, Tz};

verus! {

} // verus!
