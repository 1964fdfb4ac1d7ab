//! Trusted boundary to the rrule crate: building a recurrence rule set from
//! its `RRULE` text and an anchor instant, adding exception (`EXDATE`) and
//! override (`RDATE`) instants, and querying the next candidate occurrence.
use chrono::TimeZone;
use vstd::prelude::*;

verus! {

#[verifier::external_type_specification]
#[verifier::external_body]
pub struct ExRRuleSet(rrule::RRuleSet);

/// What building a rule set from `RRULE` text and an anchor Unix instant
/// yields: `None` when the grammar or the validator rejects the text, or
/// else the rule-set core, summarized as the pair of its rule content and
/// its anchor. A function of the text and anchor alone.
pub uninterp spec fn rrule_built(rule: Seq<char>, anchor: int) -> Option<(Seq<char>, int)>;

/// The core a rule set holds: its rule content and its anchor instant.
pub uninterp spec fn rrule_core(rs: rrule::RRuleSet) -> (Seq<char>, int);

/// The exception instants a rule set holds, as Unix timestamps.
pub uninterp spec fn rrule_exdates(rs: rrule::RRuleSet) -> Set<int>;

/// The override instants a rule set holds, as Unix timestamps.
pub uninterp spec fn rrule_rdates(rs: rrule::RRuleSet) -> Set<int>;

/// What the rrule crate returns as the first candidate occurrence at or
/// after `t` for a rule set with the given core, exceptions and overrides
/// (`None` when the rule is exhausted before `t` or the crate's evaluation
/// limit cuts the search off). Rule evaluation is deterministic, so this is
/// a function of the arguments alone.
pub uninterp spec fn rrule_next_from(
    core: (Seq<char>, int),
    ex: Set<int>,
    rd: Set<int>,
    t: int,
) -> Option<int>;

/// The model triple of a rule set: core, exceptions, overrides.
pub open spec fn rrule_model(rs: rrule::RRuleSet) -> ((Seq<char>, int), Set<int>, Set<int>) {
    (rrule_core(rs), rrule_exdates(rs), rrule_rdates(rs))
}

/// Unix timestamps representable as a chrono `DateTime`, as chrono
/// documents its range (roughly years -262144 to 262143).
pub open spec fn chrono_ts(t: int) -> bool {
    -8334601228800 <= t <= 8210266876799
}

/// Relies on `rrule::RRule::from_str`, `rrule::RRule::validate` and
/// `rrule::RRuleSet::new`/`rrule`: parses and validates `RRULE` text against
/// an anchor instant and builds a rule set holding exactly that one rule,
/// with no exception or override instants yet.
#[verifier::external_body]
pub(crate) fn rrule_build(rule: &str, anchor: i64) -> (r: Option<rrule::RRuleSet>)
    requires
        chrono_ts(anchor as int),
    ensures
        r matches Some(rs) ==> rrule_built(rule@, anchor as int) == Some(rrule_core(rs)),
        r is None ==> rrule_built(rule@, anchor as int) is None,
        r matches Some(rs) ==> rrule_exdates(rs) == Set::<int>::empty() && rrule_rdates(rs)
            == Set::<int>::empty(),
{
    let unvalidated: rrule::RRule<rrule::Unvalidated> = match rule.parse() {
        Ok(u) => u,
        Err(_) => return None,
    };
    let dt = rrule::Tz::UTC.timestamp_opt(anchor, 0).unwrap();
    match unvalidated.validate(dt) {
        Ok(validated) => Some(rrule::RRuleSet::new(dt).rrule(validated)),
        Err(_) => None,
    }
}

/// Relies on `rrule::RRuleSet::exdate`: appends one exception instant and
/// changes nothing else of the set.
#[verifier::external_body]
pub(crate) fn rrule_add_exdate(rs: rrule::RRuleSet, t: i64) -> (out: rrule::RRuleSet)
    requires
        chrono_ts(t as int),
    ensures
        rrule_core(out) == rrule_core(rs),
        rrule_exdates(out) == rrule_exdates(rs).insert(t as int),
        rrule_rdates(out) == rrule_rdates(rs),
{
    rs.exdate(rrule::Tz::UTC.timestamp_opt(t, 0).unwrap())
}

/// Relies on `rrule::RRuleSet::rdate`: appends one override instant and
/// changes nothing else of the set.
#[verifier::external_body]
pub(crate) fn rrule_add_rdate(rs: rrule::RRuleSet, t: i64) -> (out: rrule::RRuleSet)
    requires
        chrono_ts(t as int),
    ensures
        rrule_core(out) == rrule_core(rs),
        rrule_exdates(out) == rrule_exdates(rs),
        rrule_rdates(out) == rrule_rdates(rs).insert(t as int),
{
    rs.rdate(rrule::Tz::UTC.timestamp_opt(t, 0).unwrap())
}

/// Relies on `rrule::RRuleSet::after` and `rrule::RRuleSet::all`: the first
/// candidate occurrence at or after `t` (the crate filters its iterator to
/// instants at or after the bound, so a returned instant is never below `t`,
/// and chrono timestamps stay in chrono's documented range).
#[verifier::external_body]
pub(crate) fn rrule_next_on_or_after(rs: &rrule::RRuleSet, t: i64) -> (r: Option<i64>)
    requires
        chrono_ts(t as int),
    ensures
        r matches Some(k) ==> rrule_next_from(
            rrule_core(*rs), rrule_exdates(*rs), rrule_rdates(*rs), t as int,
        ) == Some(k as int),
        r is None ==> rrule_next_from(
            rrule_core(*rs), rrule_exdates(*rs), rrule_rdates(*rs), t as int,
        ) is None,
        r matches Some(k) ==> k >= t && chrono_ts(k as int),
{
    let dt = rrule::Tz::UTC.timestamp_opt(t, 0).unwrap();
    let result = rs.clone().after(dt).all(1);
    result.dates.into_iter().next().map(|d| d.timestamp())
}

} // verus!
