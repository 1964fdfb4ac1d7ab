//! The event record: identity, descriptive fields, start and end instants,
//! and an optional recurrence rule set.
use crate::civil::UNIX_EPOCH_SECS;
use crate::moment::Moment;
use crate::rrule_api::{rrule_core, rrule_exdates, rrule_rdates};
use vstd::prelude::*;

verus! {

/// One calendar event. `end >= start` is not enforced: malformed input may
/// violate it and duration computation tolerates that.
#[derive(Debug)]
pub struct Event {
    pub id: String,
    pub summary: Option<String>,
    pub location: Option<String>,
    pub description: Option<String>,
    pub start: Moment,
    pub end: Moment,
    pub rrule: Option<rrule::RRuleSet>,
}

/// The mathematical image of an `Event`: its text fields as character
/// sequences and its recurrence rule set as the model triple of core,
/// exception instants and override instants.
pub struct EventModel {
    pub id: Seq<char>,
    pub summary: Option<Seq<char>>,
    pub location: Option<Seq<char>>,
    pub description: Option<Seq<char>>,
    pub start: Moment,
    pub end: Moment,
    pub rrule: Option<((Seq<char>, int), Set<int>, Set<int>)>,
}

/// The model triple of an optional rule set.
pub open spec fn rrule_opt_model(rs: Option<rrule::RRuleSet>) -> Option<
    ((Seq<char>, int), Set<int>, Set<int>),
> {
    match rs {
        Some(r) => Some(((rrule_core(r), rrule_exdates(r), rrule_rdates(r)))),
        None => None,
    }
}

impl Event {
    pub open spec fn model(self) -> EventModel {
        EventModel {
            id: self.id@,
            summary: self.summary.deep_view(),
            location: self.location.deep_view(),
            description: self.description.deep_view(),
            start: self.start,
            end: self.end,
            rrule: rrule_opt_model(self.rrule),
        }
    }

    /// Both instants lie in the representable range.
    pub open spec fn wf(self) -> bool {
        self.start.in_range() && self.end.in_range()
    }

    /// A blank event at the Unix-epoch sentinel instant, used so that a
    /// record missing `DTSTART`/`DTEND` does not abort the whole scan.
    pub fn default() -> (e: Event)
        ensures
            e.id@ == Seq::<char>::empty(),
            e.summary is None,
            e.location is None,
            e.description is None,
            e.start == Moment::DateTime(UNIX_EPOCH_SECS),
            e.end == Moment::DateTime(UNIX_EPOCH_SECS),
            e.rrule is None,
            e.wf(),
    {
        Event {
            id: String::new(),
            summary: None,
            location: None,
            description: None,
            start: Moment::DateTime(UNIX_EPOCH_SECS),
            end: Moment::DateTime(UNIX_EPOCH_SECS),
            rrule: None,
        }
    }

    /// Signed duration in seconds from start to end. Zero or — for
    /// pathological input — negative values are possible; callers must not
    /// assume positivity.
    pub fn duration(&self) -> (r: i64)
        requires
            self.wf(),
        ensures
            r == self.end.spec_instant() - self.start.spec_instant(),
    {
        self.end.instant() - self.start.instant()
    }
}

} // verus!
