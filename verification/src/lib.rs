//! A calendar-query core: parses iCalendar VEVENT records into events with a
//! unified instant model, reconstructs recurrence rules with their exception
//! and override instants, and selects the event occurrences that fall within
//! a query window.
pub mod civil;
pub mod event;
pub mod ics;
pub mod moment;
pub mod rrule_api;
pub mod select;
pub mod zone;

use vstd::prelude::*;

verus! {

} // verus!
