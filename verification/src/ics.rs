//! The property extractor: turns tokenized VEVENT property records into
//! typed events, reconstructs recurrence rules with their exception and
//! override instants, and links override records to their parent events.
use crate::civil::{SECS_MAX, UNIX_EPOCH_SECS};
use crate::event::{Event, EventModel};
use crate::moment::{
    four_digit_chars, parse_rel, push_four, push_two, two_digit_chars, utc_basic_chars,
    utc_basic_x, Moment, MomentError,
};
use crate::rrule_api::{rrule_add_exdate, rrule_add_rdate, rrule_build, rrule_built};
use crate::zone::{unix_to_zone_civil, unix_to_zone_civil_x};
use vstd::prelude::*;

verus! {

/// Error for one calendar source: the text does not tokenize as iCalendar,
/// a date/date-time property does not parse, or an `RRULE` does not parse
/// or lacks its `DTSTART` anchor.
#[derive(Debug, Clone, Copy, PartialEq, Eq, Structural)]
pub enum IcsError {
    MalformedCalendar,
    MalformedInstant,
    MalformedRecurrence,
}

/// One VEVENT property record as the tokenizer hands it over: a name, an
/// optional value, and an optional parameter list of name/values pairs.
#[derive(Debug)]
pub struct Property {
    pub name: String,
    pub value: Option<String>,
    pub params: Option<Vec<(String, Vec<String>)>>,
}

/// The mathematical image of a `Property`.
pub struct PropertyModel {
    pub name: Seq<char>,
    pub value: Option<Seq<char>>,
    pub params: Option<Seq<(Seq<char>, Seq<Seq<char>>)>>,
}

impl DeepView for Property {
    type V = PropertyModel;

    open spec fn deep_view(&self) -> PropertyModel {
        PropertyModel {
            name: self.name@,
            value: self.value.deep_view(),
            params: self.params.deep_view(),
        }
    }
}

/// Compares a property or parameter name against a known name.
fn name_is(n: &String, lit: &str) -> (r: bool)
    ensures
        r == (n@ == lit@),
{
    let owned: String = lit.to_owned();
    n.eq(&owned)
}

/// The first value listed under the parameter name `TZID`, scanning from
/// position `j`; a `TZID` with no values counts as no explicit zone.
pub open spec fn find_tzid(ps: Seq<(Seq<char>, Seq<Seq<char>>)>, j: int) -> Option<Seq<char>>
    decreases ps.len() - j,
{
    if !(0 <= j < ps.len()) {
        None
    } else if ps[j].0 == "TZID"@ {
        if ps[j].1.len() > 0 {
            Some(ps[j].1[0])
        } else {
            None
        }
    } else {
        find_tzid(ps, j + 1)
    }
}

/// The explicit time zone of a property's parameter bag, if any.
pub open spec fn get_tz_spec(params: Option<Seq<(Seq<char>, Seq<Seq<char>>)>>) -> Option<
    Seq<char>,
> {
    match params {
        Some(ps) => find_tzid(ps, 0),
        None => None,
    }
}

/// Pulls the time zone, if any, out of property parameters: the first value
/// under the parameter name `TZID`; absence means no explicit zone.
pub fn get_tz(maybe_params: &Option<Vec<(String, Vec<String>)>>) -> (r: Option<String>)
    ensures
        r.deep_view() == get_tz_spec(maybe_params.deep_view()),
{
    match maybe_params {
        None => None,
        Some(params) => {
            let ghost ps = params.deep_view();
            let n = params.len();
            let mut j: usize = 0;
            while j < n
                invariant
                    j <= n == ps.len(),
                    ps == params.deep_view(),
                    get_tz_spec(maybe_params.deep_view()) == find_tzid(ps, 0),
                    find_tzid(ps, 0) == find_tzid(ps, j as int),
                decreases n - j,
            {
                proof {
                    assert(ps[j as int] == (params@[j as int].0@, params@[j as int].1.deep_view()));
                }
                if name_is(&params[j].0, "TZID") {
                    if params[j].1.len() > 0 {
                        let v = params[j].1[0].clone();
                        proof {
                            assert(ps[j as int].1[0] == params@[j as int].1@[0]@);
                        }
                        return Some(v);
                    } else {
                        return None;
                    }
                }
                j = j + 1;
            }
            None
        },
    }
}

/// Parses one date/date-time property value under an optional `TZID` zone;
/// the instant model's parsing rules apply unchanged.
pub fn parse_datetime(datetime: &str, time_zone: Option<String>) -> (r: Result<
    Moment,
    MomentError,
>)
    ensures
        parse_rel(datetime@, time_zone.deep_view(), r),
        r matches Ok(mo) ==> mo.in_range(),
{
    Moment::parse(datetime, time_zone)
}

/// The `YYYYMMDDTHHMMSS` text of a civil tuple (no zone suffix).
pub open spec fn zoned_basic_chars(c: (int, int, int, int, int, int)) -> Seq<char> {
    four_digit_chars(c.0) + two_digit_chars(c.1) + two_digit_chars(c.2) + seq!['T']
        + two_digit_chars(c.3) + two_digit_chars(c.4) + two_digit_chars(c.5)
}

/// What `reconstruct_datetime` produces: the canonical `DTSTART`-style
/// fragment anchoring a recurrence rule, `:YYYYMMDDTHHMMSSZ` for UTC and
/// `;TZID=<zone>:YYYYMMDDTHHMMSS` for a named zone, where the civil tuple is
/// the zone's wall-clock display of the instant.
pub open spec fn reconstruct_rel(
    t: int,
    zone: Option<Seq<char>>,
    r: Result<Seq<char>, MomentError>,
) -> bool {
    match zone {
        None => r == Ok::<Seq<char>, MomentError>(seq![':'] + utc_basic_chars(t)),
        Some(z) => if z == "UTC"@ {
            r == Ok::<Seq<char>, MomentError>(seq![':'] + utc_basic_chars(t))
        } else {
            match unix_to_zone_civil(z, t - UNIX_EPOCH_SECS) {
                Some(c) => if 0 <= c.0 < 10000 {
                    r == Ok::<Seq<char>, MomentError>(
                        ";TZID="@ + z + seq![':'] + zoned_basic_chars(c),
                    )
                } else {
                    r == Err::<Seq<char>, MomentError>(MomentError::MalformedInstant)
                },
                None => r == Err::<Seq<char>, MomentError>(MomentError::MalformedInstant),
            }
        },
    }
}

/// The `:YYYYMMDDTHHMMSSZ` fragment of an instant.
fn colon_utc(t: i64) -> (r: String)
    requires
        0 <= t < SECS_MAX,
    ensures
        r@ == seq![':'] + utc_basic_chars(t as int),
{
    proof {
        reveal_strlit(":");
        assert(":"@ =~= seq![':']);
    }
    let mut out: String = ":".to_owned();
    out.append(utc_basic_x(t).as_str());
    proof {
        assert(out@ =~= seq![':'] + utc_basic_chars(t as int));
    }
    out
}

/// Reconstructs the raw `DTSTART` fragment that anchors a recurrence rule.
/// For the UTC and named-zone cases this is the exact inverse of parsing.
pub fn reconstruct_datetime(m: &Moment, time_zone: Option<String>) -> (r: Result<
    String,
    MomentError,
>)
    requires
        m.in_range(),
    ensures
        reconstruct_rel(
            m.spec_instant(),
            time_zone.deep_view(),
            match r {
                Ok(s) => Ok(s@),
                Err(e) => Err(e),
            },
        ),
{
    let t = m.instant();
    let z = match time_zone {
        None => {
            return Ok(colon_utc(t));
        },
        Some(z) => z,
    };
    if name_is(&z, "UTC") {
        Ok(colon_utc(t))
    } else {
        match unix_to_zone_civil_x(z.as_str(), t - UNIX_EPOCH_SECS) {
            Some((cy, cm, cd, ch, cmi, cs)) => {
                if 0 <= cy && cy < 10000 {
                    proof {
                        reveal_strlit(";TZID=");
                        reveal_strlit(":");
                        assert(":"@ =~= seq![':']);
                        reveal_strlit("T");
                        assert("T"@ =~= seq!['T']);
                    }
                    let mut out: String = ";TZID=".to_owned();
                    out.append(z.as_str());
                    out.append(":");
                    push_four(&mut out, cy as u64);
                    push_two(&mut out, cm);
                    push_two(&mut out, cd);
                    out.append("T");
                    push_two(&mut out, ch);
                    push_two(&mut out, cmi);
                    push_two(&mut out, cs);
                    proof {
                        assert(out@ =~= ";TZID="@ + z@ + seq![':'] + zoned_basic_chars(
                            (cy as int, cm as int, cd as int, ch as int, cmi as int, cs as int),
                        ));
                    }
                    Ok(out)
                } else {
                    Err(MomentError::MalformedInstant)
                }
            },
            None => Err(MomentError::MalformedInstant),
        }
    }
}

/// The extractor's working state for one VEVENT block: the event fields
/// collected so far, the pending recurrence anchor (the parsed `DTSTART`),
/// and the override instants from `RECURRENCE-ID` records.
pub struct Draft {
    pub id: Seq<char>,
    pub summary: Option<Seq<char>>,
    pub location: Option<Seq<char>>,
    pub description: Option<Seq<char>>,
    pub start: Moment,
    pub end: Moment,
    pub rrule: Option<((Seq<char>, int), Set<int>, Set<int>)>,
    pub anchor: Option<Moment>,
    pub reqs: Seq<Moment>,
}

/// The state before any property: sentinel epoch instants, no fields.
pub open spec fn draft_init() -> Draft {
    Draft {
        id: Seq::empty(),
        summary: None,
        location: None,
        description: None,
        start: Moment::DateTime(UNIX_EPOCH_SECS),
        end: Moment::DateTime(UNIX_EPOCH_SECS),
        rrule: None,
        anchor: None,
        reqs: Seq::empty(),
    }
}

pub open spec fn draft_wf(d: Draft) -> bool {
    &&& d.start.in_range()
    &&& d.end.in_range()
    &&& (d.anchor matches Some(a) ==> a.in_range())
    &&& forall|i: int| 0 <= i < d.reqs.len() ==> (#[trigger] d.reqs[i]).in_range()
}

/// Adds an exception instant to the recurrence model, if one is attached;
/// an `EXDATE` before any `RRULE` is ignored.
pub open spec fn apply_ex(
    rr: Option<((Seq<char>, int), Set<int>, Set<int>)>,
    mo: Moment,
) -> Option<((Seq<char>, int), Set<int>, Set<int>)> {
    match rr {
        Some((c, ex, rd)) => Some((c, ex.insert(mo.spec_instant() - UNIX_EPOCH_SECS), rd)),
        None => None,
    }
}

/// How one property record advances the draft. Date-valued properties are
/// related, not computed, because an all-day `DTSTART`/`DTEND`/`EXDATE`
/// resolves against the system's local zone.
pub open spec fn step_rel(st: Draft, p: PropertyModel, out: Result<Draft, IcsError>) -> bool {
    if p.name == "UID"@ {
        out == Ok::<Draft, IcsError>(
            match p.value {
                Some(v) => Draft { id: v, ..st },
                None => st,
            },
        )
    } else if p.name == "SUMMARY"@ {
        out == Ok::<Draft, IcsError>(Draft { summary: p.value, ..st })
    } else if p.name == "LOCATION"@ {
        out == Ok::<Draft, IcsError>(Draft { location: p.value, ..st })
    } else if p.name == "DESCRIPTION"@ {
        out == Ok::<Draft, IcsError>(Draft { description: p.value, ..st })
    } else if p.name == "DTSTART"@ {
        match p.value {
            None => out == Err::<Draft, IcsError>(IcsError::MalformedInstant),
            Some(v) => {
                let tz = get_tz_spec(p.params);
                match out {
                    Ok(st2) => exists|mo: Moment|
                        #[trigger] parse_rel(v, tz, Ok(mo)) && mo.in_range() && st2 == Draft {
                            start: mo,
                            anchor: Some(mo),
                            ..st
                        },
                    Err(e) => e == IcsError::MalformedInstant && parse_rel(
                        v, tz, Err(MomentError::MalformedInstant),
                    ),
                }
            },
        }
    } else if p.name == "DTEND"@ {
        match p.value {
            None => out == Err::<Draft, IcsError>(IcsError::MalformedInstant),
            Some(v) => {
                let tz = get_tz_spec(p.params);
                match out {
                    Ok(st2) => exists|mo: Moment|
                        #[trigger] parse_rel(v, tz, Ok(mo)) && mo.in_range() && st2 == Draft {
                            end: mo,
                            ..st
                        },
                    Err(e) => e == IcsError::MalformedInstant && parse_rel(
                        v, tz, Err(MomentError::MalformedInstant),
                    ),
                }
            },
        }
    } else if p.name == "RRULE"@ {
        match (p.value, st.anchor) {
            (Some(v), Some(a)) => match rrule_built(v, a.spec_instant() - UNIX_EPOCH_SECS) {
                Some(core) => out == Ok::<Draft, IcsError>(
                    Draft { rrule: Some((core, Set::empty(), Set::empty())), ..st },
                ),
                None => out == Err::<Draft, IcsError>(IcsError::MalformedRecurrence),
            },
            _ => out == Err::<Draft, IcsError>(IcsError::MalformedRecurrence),
        }
    } else if p.name == "EXDATE"@ {
        match p.value {
            None => out == Err::<Draft, IcsError>(IcsError::MalformedInstant),
            Some(v) => {
                let tz = get_tz_spec(p.params);
                match out {
                    Ok(st2) => exists|mo: Moment|
                        #[trigger] parse_rel(v, tz, Ok(mo)) && mo.in_range() && st2 == Draft {
                            rrule: apply_ex(st.rrule, mo),
                            ..st
                        },
                    Err(e) => e == IcsError::MalformedInstant && parse_rel(
                        v, tz, Err(MomentError::MalformedInstant),
                    ),
                }
            },
        }
    } else if p.name == "RECURRENCE-ID"@ {
        match p.value {
            None => out == Err::<Draft, IcsError>(IcsError::MalformedInstant),
            Some(v) => {
                let tz = get_tz_spec(p.params);
                match out {
                    Ok(st2) => exists|mo: Moment|
                        #[trigger] parse_rel(v, tz, Ok(mo)) && mo.in_range() && st2 == Draft {
                            reqs: st.reqs.push(mo),
                            ..st
                        },
                    Err(e) => e == IcsError::MalformedInstant && parse_rel(
                        v, tz, Err(MomentError::MalformedInstant),
                    ),
                }
            },
        }
    } else {
        // unrecognized properties are ignored, forward-compatibly
        out == Ok::<Draft, IcsError>(st)
    }
}

/// How a whole property list advances the draft: the steps chain in order,
/// and the first failing property decides the error.
pub open spec fn block_rel(
    props: Seq<PropertyModel>,
    st0: Draft,
    out: Result<Draft, IcsError>,
) -> bool
    decreases props.len(),
{
    if props.len() == 0 {
        out == Ok::<Draft, IcsError>(st0)
    } else {
        ||| exists|st: Draft|
            block_rel(props.drop_last(), st0, Ok(st)) && #[trigger] step_rel(
                st, props.last(), out,
            )
        ||| (block_rel(props.drop_last(), st0, out) && out is Err)
    }
}

/// A block's extraction succeeded from the initial draft with result `d`.
pub open spec fn block_ok(props: Seq<PropertyModel>, d: Draft) -> bool {
    block_rel(props, draft_init(), Ok(d))
}

/// A failure within a prefix decides the whole block.
proof fn lemma_block_err(props: Seq<PropertyModel>, k: int, st0: Draft, e: IcsError)
    requires
        0 <= k <= props.len(),
        block_rel(props.take(k), st0, Err(e)),
    ensures
        block_rel(props, st0, Err(e)),
    decreases props.len() - k,
{
    if k == props.len() {
        assert(props.take(k) =~= props);
    } else {
        assert(props.take(k + 1).drop_last() =~= props.take(k));
        assert(block_rel(props.take(k + 1).drop_last(), st0, Err::<Draft, IcsError>(e)));
        assert(block_rel(props.take(k + 1), st0, Err(e)));
        lemma_block_err(props, k + 1, st0, e);
    }
}

/// Extends a successful chain by one successful step.
proof fn lemma_block_snoc(props: Seq<PropertyModel>, k: int, st0: Draft, st: Draft, out: Result<
    Draft,
    IcsError,
>)
    requires
        0 <= k < props.len(),
        block_rel(props.take(k), st0, Ok(st)),
        step_rel(st, props[k], out),
    ensures
        block_rel(props.take(k + 1), st0, out),
{
    assert(props.take(k + 1).drop_last() =~= props.take(k));
    assert(props.take(k + 1).last() == props[k]);
    assert(block_rel(props.take(k + 1).drop_last(), st0, Ok::<Draft, IcsError>(st)));
    assert(step_rel(st, props.take(k + 1).last(), out));
}

/// The recognized property names are pairwise distinct, so exactly one
/// branch of `step_rel` applies to a property.
pub proof fn lemma_distinct_names()
    ensures
        "UID"@ != "SUMMARY"@,
        "UID"@ != "LOCATION"@,
        "UID"@ != "DESCRIPTION"@,
        "UID"@ != "DTSTART"@,
        "UID"@ != "DTEND"@,
        "UID"@ != "RRULE"@,
        "UID"@ != "EXDATE"@,
        "UID"@ != "RECURRENCE-ID"@,
        "SUMMARY"@ != "LOCATION"@,
        "SUMMARY"@ != "DESCRIPTION"@,
        "SUMMARY"@ != "DTSTART"@,
        "SUMMARY"@ != "DTEND"@,
        "SUMMARY"@ != "RRULE"@,
        "SUMMARY"@ != "EXDATE"@,
        "SUMMARY"@ != "RECURRENCE-ID"@,
        "LOCATION"@ != "DESCRIPTION"@,
        "LOCATION"@ != "DTSTART"@,
        "LOCATION"@ != "DTEND"@,
        "LOCATION"@ != "RRULE"@,
        "LOCATION"@ != "EXDATE"@,
        "LOCATION"@ != "RECURRENCE-ID"@,
        "DESCRIPTION"@ != "DTSTART"@,
        "DESCRIPTION"@ != "DTEND"@,
        "DESCRIPTION"@ != "RRULE"@,
        "DESCRIPTION"@ != "EXDATE"@,
        "DESCRIPTION"@ != "RECURRENCE-ID"@,
        "DTSTART"@ != "DTEND"@,
        "DTSTART"@ != "RRULE"@,
        "DTSTART"@ != "EXDATE"@,
        "DTSTART"@ != "RECURRENCE-ID"@,
        "DTEND"@ != "RRULE"@,
        "DTEND"@ != "EXDATE"@,
        "DTEND"@ != "RECURRENCE-ID"@,
        "RRULE"@ != "EXDATE"@,
        "RRULE"@ != "RECURRENCE-ID"@,
        "EXDATE"@ != "RECURRENCE-ID"@,
{
    reveal_strlit("UID");
    reveal_strlit("SUMMARY");
    reveal_strlit("LOCATION");
    reveal_strlit("DESCRIPTION");
    reveal_strlit("DTSTART");
    reveal_strlit("DTEND");
    reveal_strlit("RRULE");
    reveal_strlit("EXDATE");
    reveal_strlit("RECURRENCE-ID");
    assert("UID"@.len() == 3);
    assert("SUMMARY"@.len() == 7);
    assert("LOCATION"@.len() == 8);
    assert("DESCRIPTION"@.len() == 11);
    assert("DTSTART"@.len() == 7);
    assert("DTEND"@.len() == 5);
    assert("RRULE"@.len() == 5);
    assert("EXDATE"@.len() == 6);
    assert("RECURRENCE-ID"@.len() == 13);
    assert("SUMMARY"@[0] == 'S');
    assert("DTSTART"@[0] == 'D');
    assert("DTEND"@[0] == 'D');
    assert("RRULE"@[0] == 'R');
}

/// Steps preserve well-formedness of the draft.
proof fn lemma_step_wf(st: Draft, p: PropertyModel, st2: Draft)
    requires
        draft_wf(st),
        step_rel(st, p, Ok(st2)),
    ensures
        draft_wf(st2),
{
    lemma_distinct_names();
    if p.name == "RECURRENCE-ID"@ && p.value is Some {
        let v = p.value.unwrap();
        let tz = get_tz_spec(p.params);
        let mo = choose|mo: Moment|
            #[trigger] parse_rel(v, tz, Ok(mo)) && mo.in_range() && st2 == Draft {
                reqs: st.reqs.push(mo),
                ..st
            };
        assert(forall|i: int| 0 <= i < st.reqs.len() ==> st2.reqs[i] == #[trigger] st.reqs[i]);
        assert(st2.reqs[st2.reqs.len() - 1] == mo);
    }
}

/// The identifier synthesized for an event that carries none: its start and
/// end instants and its summary, so unrelated untitled events do not collide.
pub open spec fn synth_id(d: Draft) -> Seq<char> {
    utc_basic_chars(d.start.spec_instant()) + utc_basic_chars(d.end.spec_instant()) + match d
        .summary {
        Some(s) => s,
        None => Seq::empty(),
    }
}

/// The event a finished draft denotes; a missing identifier is synthesized.
pub open spec fn finish_draft(d: Draft) -> EventModel {
    EventModel {
        id: if d.id.len() == 0 {
            synth_id(d)
        } else {
            d.id
        },
        summary: d.summary,
        location: d.location,
        description: d.description,
        start: d.start,
        end: d.end,
        rrule: d.rrule,
    }
}

/// A successful chain from a well-formed draft ends well-formed.
proof fn lemma_block_chain_wf(props: Seq<PropertyModel>, st0: Draft, st: Draft)
    requires
        draft_wf(st0),
        block_rel(props, st0, Ok(st)),
    ensures
        draft_wf(st),
    decreases props.len(),
{
    if props.len() > 0 {
        assert(!(Ok::<Draft, IcsError>(st) is Err));
        let mid = choose|mid: Draft|
            block_rel(props.drop_last(), st0, Ok(mid)) && #[trigger] step_rel(
                mid, props.last(), Ok(st),
            );
        lemma_block_chain_wf(props.drop_last(), st0, mid);
        lemma_step_wf(mid, props.last(), st);
    }
}

/// The per-event override requests of phase one, each tagged with the
/// index of the event record it came from.
pub open spec fn tag_reqs(reqs: Seq<Moment>, idx: int) -> Seq<(int, Moment)> {
    reqs.map_values(|mo: Moment| (idx, mo))
}

/// Phase one of extraction: each VEVENT block yields one event record (an
/// override record stands alone too) plus its tagged override requests; the
/// first failing block decides the error.
pub open spec fn phase1_rel(
    blocks: Seq<Seq<PropertyModel>>,
    out: Result<(Seq<EventModel>, Seq<(int, Moment)>), IcsError>,
) -> bool
    decreases blocks.len(),
{
    if blocks.len() == 0 {
        out == Ok::<(Seq<EventModel>, Seq<(int, Moment)>), IcsError>(
            (Seq::empty(), Seq::empty()),
        )
    } else {
        ||| exists|ems: Seq<EventModel>, reqs: Seq<(int, Moment)>, d: Draft|
            {
                &&& phase1_rel(blocks.drop_last(), #[trigger] p1_res(ems, reqs))
                &&& #[trigger] block_ok(blocks.last(), d)
                &&& out == Ok::<(Seq<EventModel>, Seq<(int, Moment)>), IcsError>(
                    (ems.push(finish_draft(d)), reqs + tag_reqs(d.reqs, ems.len() as int)),
                )
            }
        ||| exists|ems: Seq<EventModel>, reqs: Seq<(int, Moment)>, e: IcsError|
            {
                &&& phase1_rel(blocks.drop_last(), #[trigger] p1_res(ems, reqs))
                &&& block_rel(blocks.last(), draft_init(), Err(#[trigger] clip_err(e)))
                &&& out == Err::<(Seq<EventModel>, Seq<(int, Moment)>), IcsError>(e)
            }
        ||| (phase1_rel(blocks.drop_last(), out) && out is Err)
    }
}

/// A successful phase-one result, as a term quantifiers can key on.
pub open spec fn p1_res(ems: Seq<EventModel>, reqs: Seq<(int, Moment)>) -> Result<
    (Seq<EventModel>, Seq<(int, Moment)>),
    IcsError,
> {
    Ok((ems, reqs))
}

/// Identity on errors; serves as a quantifier trigger.
pub open spec fn clip_err(e: IcsError) -> IcsError {
    e
}

/// Phase one succeeded with these event records and requests.
pub open spec fn phase1_ok(
    blocks: Seq<Seq<PropertyModel>>,
    ems: Seq<EventModel>,
    reqs: Seq<(int, Moment)>,
) -> bool {
    phase1_rel(blocks, p1_res(ems, reqs))
}

/// A failure within a prefix of the blocks decides the whole batch.
proof fn lemma_phase1_err(blocks: Seq<Seq<PropertyModel>>, k: int, e: IcsError)
    requires
        0 <= k <= blocks.len(),
        phase1_rel(blocks.take(k), Err(e)),
    ensures
        phase1_rel(blocks, Err(e)),
    decreases blocks.len() - k,
{
    if k == blocks.len() {
        assert(blocks.take(k) =~= blocks);
    } else {
        assert(blocks.take(k + 1).drop_last() =~= blocks.take(k));
        assert(phase1_rel(
            blocks.take(k + 1).drop_last(),
            Err::<(Seq<EventModel>, Seq<(int, Moment)>), IcsError>(e),
        ));
        assert(phase1_rel(blocks.take(k + 1), Err(e)));
        lemma_phase1_err(blocks, k + 1, e);
    }
}

/// Extends a successful phase-one prefix by one successful block.
proof fn lemma_phase1_snoc_ok(
    blocks: Seq<Seq<PropertyModel>>,
    k: int,
    ems: Seq<EventModel>,
    reqs: Seq<(int, Moment)>,
    d: Draft,
)
    requires
        0 <= k < blocks.len(),
        phase1_ok(blocks.take(k), ems, reqs),
        block_ok(blocks[k], d),
    ensures
        phase1_ok(
            blocks.take(k + 1),
            ems.push(finish_draft(d)),
            reqs + tag_reqs(d.reqs, ems.len() as int),
        ),
{
    assert(blocks.take(k + 1).drop_last() =~= blocks.take(k));
    assert(blocks.take(k + 1).last() == blocks[k]);
    assert(phase1_rel(blocks.take(k + 1).drop_last(), p1_res(ems, reqs)));
    assert(block_ok(blocks.take(k + 1).last(), d));
    assert(phase1_ok(
        blocks.take(k + 1),
        ems.push(finish_draft(d)),
        reqs + tag_reqs(d.reqs, ems.len() as int),
    ));
}

/// Extends a successful phase-one prefix by a failing block.
proof fn lemma_phase1_snoc_err(
    blocks: Seq<Seq<PropertyModel>>,
    k: int,
    ems: Seq<EventModel>,
    reqs: Seq<(int, Moment)>,
    e: IcsError,
)
    requires
        0 <= k < blocks.len(),
        phase1_ok(blocks.take(k), ems, reqs),
        block_rel(blocks[k], draft_init(), Err(e)),
    ensures
        phase1_rel(blocks, Err(e)),
{
    assert(blocks.take(k + 1).drop_last() =~= blocks.take(k));
    assert(blocks.take(k + 1).last() == blocks[k]);
    assert(phase1_rel(blocks.take(k + 1).drop_last(), p1_res(ems, reqs)));
    assert(block_rel(blocks.take(k + 1).last(), draft_init(), Err(clip_err(e))));
    assert(phase1_rel(blocks.take(k + 1), Err(e)));
    lemma_phase1_err(blocks, k + 1, e);
}

/// The first event record other than `src` itself carrying `src`'s
/// identifier, scanning from `j`.
pub open spec fn find_parent_from(ems: Seq<EventModel>, src: int, j: int) -> Option<int>
    decreases ems.len() - j,
{
    if !(0 <= j < ems.len()) {
        None
    } else if j != src && ems[j].id == ems[src].id {
        Some(j)
    } else {
        find_parent_from(ems, src, j + 1)
    }
}

/// The event record with one more override instant in its recurrence.
pub open spec fn with_rdate(em: EventModel, mo: Moment) -> EventModel {
    EventModel {
        rrule: match em.rrule {
            Some((c, ex, rd)) => Some((c, ex, rd.insert(mo.spec_instant() - UNIX_EPOCH_SECS))),
            None => None,
        },
        ..em
    }
}

/// Applies one override request: the instant is added to the recurrence of
/// the first other event with the same identifier; when that event has no
/// recurrence, or no such event exists, the override record simply stands
/// alone (it was already emitted as its own event).
pub open spec fn apply_req(ems: Seq<EventModel>, src: int, mo: Moment) -> Seq<EventModel> {
    if !(0 <= src < ems.len()) {
        ems
    } else {
        match find_parent_from(ems, src, 0) {
            Some(j) => if ems[j].rrule is Some {
                ems.update(j, with_rdate(ems[j], mo))
            } else {
                ems
            },
            None => ems,
        }
    }
}

/// Applies the override requests in order of appearance.
pub open spec fn apply_reqs(ems: Seq<EventModel>, reqs: Seq<(int, Moment)>) -> Seq<EventModel>
    decreases reqs.len(),
{
    if reqs.len() == 0 {
        ems
    } else {
        apply_req(apply_reqs(ems, reqs.drop_last()), reqs.last().0, reqs.last().1)
    }
}

/// What extraction yields for a batch of VEVENT property blocks: the
/// phase-one records with all override requests applied, or the first error.
pub open spec fn extract_rel(
    blocks: Seq<Seq<PropertyModel>>,
    out: Result<Seq<EventModel>, IcsError>,
) -> bool {
    match out {
        Ok(ems) => exists|first_pass: Seq<EventModel>, reqs: Seq<(int, Moment)>|
            #[trigger] phase1_ok(blocks, first_pass, reqs) && ems == apply_reqs(first_pass, reqs),
        Err(e) => phase1_rel(blocks, Err(e)),
    }
}

/// What the ical crate's tokenizer extracts from iCalendar text: for each
/// VEVENT, in order, its property records; `None` when the parser reports an
/// error. A function of the text alone.
pub uninterp spec fn ical_vevents(text: Seq<char>) -> Option<Seq<Seq<PropertyModel>>>;

/// Relies on `ical::IcalParser`: splits iCalendar text into the property
/// records (name, parameter list, value) of each VEVENT.
#[verifier::external_body]
fn tokenize(text: &str) -> (r: Option<Vec<Vec<Property>>>)
    ensures
        r matches Some(v) ==> ical_vevents(text@) == Some(v.deep_view()),
        r is None ==> ical_vevents(text@) is None,
{
    let reader = ical::IcalParser::new(std::io::BufReader::new(text.as_bytes()));
    let mut out: Vec<Vec<Property>> = Vec::new();
    for cal in reader {
        match cal {
            Ok(c) => out.extend(c.events.into_iter().map(|ev| {
                ev.properties.into_iter().map(
                    |p| Property { name: p.name, value: p.value, params: p.params },
                ).collect()
            })),
            Err(_) => return None,
        }
    }
    Some(out)
}

/// Clones an optional text field.
fn clone_opt(o: &Option<String>) -> (r: Option<String>)
    ensures
        r == *o,
{
    match o {
        Some(v) => Some(v.clone()),
        None => None,
    }
}

/// The extractor's working state, as executable data.
struct Working {
    id: String,
    summary: Option<String>,
    location: Option<String>,
    description: Option<String>,
    start: Moment,
    end: Moment,
    rrule: Option<rrule::RRuleSet>,
    anchor: Option<Moment>,
    reqs: Vec<Moment>,
}

impl Working {
    spec fn model(self) -> Draft {
        Draft {
            id: self.id@,
            summary: self.summary.deep_view(),
            location: self.location.deep_view(),
            description: self.description.deep_view(),
            start: self.start,
            end: self.end,
            rrule: crate::event::rrule_opt_model(self.rrule),
            anchor: self.anchor,
            reqs: self.reqs@,
        }
    }
}

/// Applies one property record to the working state.
#[verifier::rlimit(100)]
fn apply_property(w: &mut Working, p: &Property) -> (r: Result<(), IcsError>)
    requires
        draft_wf(old(w).model()),
    ensures
        match r {
            Ok(u) => step_rel(old(w).model(), p.deep_view(), Ok(final(w).model())),
            Err(e) => step_rel(old(w).model(), p.deep_view(), Err(e)),
        },
{
    proof {
        lemma_distinct_names();
    }
    if name_is(&p.name, "UID") {
        match &p.value {
            Some(v) => {
                w.id = v.clone();
            },
            None => (),
        }
        Ok(())
    } else if name_is(&p.name, "SUMMARY") {
        w.summary = clone_opt(&p.value);
        Ok(())
    } else if name_is(&p.name, "LOCATION") {
        w.location = clone_opt(&p.value);
        Ok(())
    } else if name_is(&p.name, "DESCRIPTION") {
        w.description = clone_opt(&p.value);
        Ok(())
    } else if name_is(&p.name, "DTSTART") {
        match &p.value {
            None => Err(IcsError::MalformedInstant),
            Some(v) => {
                let tz = get_tz(&p.params);
                match Moment::parse(v.as_str(), tz) {
                    Ok(mo) => {
                        w.start = mo;
                        w.anchor = Some(mo);
                        Ok(())
                    },
                    Err(_) => Err(IcsError::MalformedInstant),
                }
            },
        }
    } else if name_is(&p.name, "DTEND") {
        match &p.value {
            None => Err(IcsError::MalformedInstant),
            Some(v) => {
                let tz = get_tz(&p.params);
                match Moment::parse(v.as_str(), tz) {
                    Ok(mo) => {
                        w.end = mo;
                        Ok(())
                    },
                    Err(_) => Err(IcsError::MalformedInstant),
                }
            },
        }
    } else if name_is(&p.name, "RRULE") {
        let anchor_now = w.anchor;
        match (&p.value, anchor_now) {
            (Some(v), Some(a)) => {
                let t = a.instant() - UNIX_EPOCH_SECS;
                match rrule_build(v.as_str(), t) {
                    Some(rs) => {
                        w.rrule = Some(rs);
                        Ok(())
                    },
                    None => Err(IcsError::MalformedRecurrence),
                }
            },
            _ => Err(IcsError::MalformedRecurrence),
        }
    } else if name_is(&p.name, "EXDATE") {
        match &p.value {
            None => Err(IcsError::MalformedInstant),
            Some(v) => {
                let tz = get_tz(&p.params);
                match Moment::parse(v.as_str(), tz) {
                    Ok(mo) => {
                        let held = w.rrule.take();
                        w.rrule = match held {
                            Some(rs) => Some(rrule_add_exdate(rs, mo.instant() - UNIX_EPOCH_SECS)),
                            None => None,
                        };
                        proof {
                            assert(crate::event::rrule_opt_model(w.rrule) == apply_ex(
                                old(w).model().rrule, mo,
                            ));
                        }
                        Ok(())
                    },
                    Err(_) => Err(IcsError::MalformedInstant),
                }
            },
        }
    } else if name_is(&p.name, "RECURRENCE-ID") {
        match &p.value {
            None => Err(IcsError::MalformedInstant),
            Some(v) => {
                let tz = get_tz(&p.params);
                match Moment::parse(v.as_str(), tz) {
                    Ok(mo) => {
                        w.reqs.push(mo);
                        Ok(())
                    },
                    Err(_) => Err(IcsError::MalformedInstant),
                }
            },
        }
    } else {
        // an unrecognized property is ignored
        Ok(())
    }
}

/// Extracts one event record from one VEVENT's ordered property list,
/// together with the override instants its `RECURRENCE-ID` records carry.
fn extract_block(props: &Vec<Property>) -> (r: Result<(Event, Vec<Moment>), IcsError>)
    ensures
        match r {
            Ok(p) => exists|d: Draft|
                #[trigger] block_ok(props.deep_view(), d) && p.0.model() == finish_draft(d)
                    && p.1@ == d.reqs && draft_wf(d),
            Err(er) => block_rel(props.deep_view(), draft_init(), Err(er)),
        },
{
    let ghost ps = props.deep_view();
    let mut w = Working {
        id: String::new(),
        summary: None,
        location: None,
        description: None,
        start: Moment::DateTime(UNIX_EPOCH_SECS),
        end: Moment::DateTime(UNIX_EPOCH_SECS),
        rrule: None,
        anchor: None,
        reqs: Vec::new(),
    };
    let n = props.len();
    let mut i: usize = 0;
    while i < n
        invariant
            i <= n == ps.len(),
            ps == props.deep_view(),
            block_rel(ps.take(i as int), draft_init(), Ok(w.model())),
            draft_wf(w.model()),
        decreases n - i,
    {
        proof {
            assert(ps[i as int] == props@[i as int].deep_view());
        }
        let ghost d0 = w.model();
        match apply_property(&mut w, &props[i]) {
            Ok(_) => {
                proof {
                    lemma_block_snoc(ps, i as int, draft_init(), d0, Ok(w.model()));
                    lemma_step_wf(d0, ps[i as int], w.model());
                }
            },
            Err(e) => {
                proof {
                    lemma_block_snoc(ps, i as int, draft_init(), d0, Err(e));
                    lemma_block_err(ps, i as int + 1, draft_init(), e);
                }
                return Err(e);
            },
        }
        i = i + 1;
    }
    proof {
        assert(ps.take(n as int) =~= ps);
    }
    let ghost d = w.model();
    if w.id.as_str().is_empty() {
        // synthesize an identifier from start, end and summary so that
        // unrelated untitled events do not collide
        let mut sid = w.start.to_string();
        sid.append(w.end.to_string().as_str());
        match &w.summary {
            Some(s) => sid.append(s.as_str()),
            None => (),
        }
        w.id = sid;
        proof {
            assert(w.id@ =~= synth_id(d));
        }
    }
    let ev = Event {
        id: w.id,
        summary: w.summary,
        location: w.location,
        description: w.description,
        start: w.start,
        end: w.end,
        rrule: w.rrule,
    };
    proof {
        assert(block_ok(ps, d));
        assert(ev.model() == finish_draft(d));
    }
    Ok((ev, w.reqs))
}

/// The models of a sequence of events.
pub open spec fn models_of(v: Seq<Event>) -> Seq<EventModel> {
    v.map_values(|e: Event| e.model())
}

/// The request list as phase one models it.
pub open spec fn reqs_model(v: Seq<(usize, Moment)>) -> Seq<(int, Moment)> {
    v.map_values(|p: (usize, Moment)| (p.0 as int, p.1))
}

/// What `parse_ics` yields for one source text, over event models.
pub open spec fn parse_ics_rel(text: Seq<char>, out: Result<Seq<EventModel>, IcsError>) -> bool {
    match ical_vevents(text) {
        None => out == Err::<Seq<EventModel>, IcsError>(IcsError::MalformedCalendar),
        Some(blocks) => extract_rel(blocks, out),
    }
}

/// The models of a parse result.
pub open spec fn result_models(r: Result<Vec<Event>, IcsError>) -> Result<
    Seq<EventModel>,
    IcsError,
> {
    match r {
        Ok(v) => Ok(models_of(v@)),
        Err(e) => Err(e),
    }
}

/// The first event other than `src` itself that carries `src`'s identifier.
fn find_parent(events: &Vec<Event>, src: usize) -> (r: Option<usize>)
    requires
        src < events@.len(),
    ensures
        match r {
            Some(j) => find_parent_from(models_of(events@), src as int, 0) == Some(j as int)
                && j < events@.len(),
            None => find_parent_from(models_of(events@), src as int, 0) is None,
        },
{
    let ghost ms = models_of(events@);
    let m = events.len();
    let mut j: usize = 0;
    while j < m
        invariant
            j <= m == events@.len(),
            src < events@.len(),
            ms == models_of(events@),
            find_parent_from(ms, src as int, 0) == find_parent_from(ms, src as int, j as int),
        decreases m - j,
    {
        proof {
            assert(ms[j as int] == events@[j as int].model());
            assert(ms[src as int] == events@[src as int].model());
        }
        if j != src && events[j].id.eq(&events[src].id) {
            return Some(j);
        }
        j = j + 1;
    }
    None
}

/// Parses one iCalendar source text into its events: tokenizes, extracts
/// one event per VEVENT block, then links each `RECURRENCE-ID` override to
/// the first other event with the same identifier. A failure anywhere in
/// the text fails this source as a whole.
pub fn parse_ics(text: &str) -> (r: Result<Vec<Event>, IcsError>)
    ensures
        parse_ics_rel(text@, result_models(r)),
        r matches Ok(events) ==> forall|i: int|
            0 <= i < events@.len() ==> (#[trigger] events@[i]).wf(),
{
    let blocks: Vec<Vec<Property>> = match tokenize(text) {
        Some(b) => b,
        None => {
            return Err(IcsError::MalformedCalendar);
        },
    };
    let ghost bs = blocks.deep_view();

    // phase one: one event record (plus override requests) per block
    let mut events: Vec<Event> = Vec::new();
    let mut requests: Vec<(usize, Moment)> = Vec::new();
    proof {
        assert(bs.take(0) =~= Seq::<Seq<PropertyModel>>::empty());
        assert(models_of(events@) =~= Seq::<EventModel>::empty());
        assert(reqs_model(requests@) =~= Seq::<(int, Moment)>::empty());
    }
    let nb = blocks.len();
    let mut i: usize = 0;
    while i < nb
        invariant
            i <= nb == bs.len(),
            bs == blocks.deep_view(),
            ical_vevents(text@) == Some(bs),
            events@.len() == i,
            phase1_ok(bs.take(i as int), models_of(events@), reqs_model(requests@)),
            forall|k: int| 0 <= k < events@.len() ==> (#[trigger] events@[k]).wf(),
            forall|k: int| 0 <= k < requests@.len() ==> (#[trigger] requests@[k]).1.in_range()
                && requests@[k].0 < i,
        decreases nb - i,
    {
        proof {
            assert(bs[i as int] == blocks@[i as int].deep_view());
        }
        let ghost ems0 = models_of(events@);
        let ghost reqs0 = reqs_model(requests@);
        match extract_block(&blocks[i]) {
            Ok(pair) => {
                let (ev, mos) = pair;
                let ghost d = choose|d: Draft|
                    #[trigger] block_ok(bs[i as int], d) && ev.model() == finish_draft(d)
                        && mos@ == d.reqs && draft_wf(d);
                let src: usize = i;
                events.push(ev);
                proof {
                    assert(models_of(events@) =~= ems0.push(finish_draft(d)));
                }
                let nm = mos.len();
                let mut q: usize = 0;
                while q < nm
                    invariant
                        q <= nm == mos@.len(),
                        reqs_model(requests@) =~= reqs0 + tag_reqs(
                            mos@.take(q as int), src as int,
                        ),
                        forall|k: int| 0 <= k < mos@.len() ==> (#[trigger] mos@[k]).in_range(),
                        forall|k: int| 0 <= k < requests@.len() ==> (#[trigger] requests@[
                            k
                        ]).1.in_range() && requests@[k].0 <= src,
                        src < usize::MAX,
                    decreases nm - q,
                {
                    let ghost req_before = requests@;
                    requests.push((src, mos[q]));
                    proof {
                        assert(requests@ == req_before.push((src, mos@[q as int])));
                        assert(reqs_model(requests@) =~= reqs_model(req_before).push(
                            (src as int, mos@[q as int]),
                        ));
                        assert(tag_reqs(mos@.take(q as int + 1), src as int) =~= tag_reqs(
                            mos@.take(q as int), src as int,
                        ).push((src as int, mos@[q as int])));
                        assert(reqs_model(requests@) =~= reqs0 + tag_reqs(
                            mos@.take(q as int + 1), src as int,
                        ));
                    }
                    q = q + 1;
                }
                proof {
                    assert(mos@.take(nm as int) =~= mos@);
                    assert(reqs_model(requests@) =~= reqs0 + tag_reqs(d.reqs, ems0.len() as int));
                    lemma_phase1_snoc_ok(bs, i as int, ems0, reqs0, d);
                }
            },
            Err(e) => {
                proof {
                    lemma_phase1_snoc_err(bs, i as int, ems0, reqs0, e);
                }
                return Err(e);
            },
        }
        i = i + 1;
    }
    proof {
        assert(bs.take(nb as int) =~= bs);
    }

    // phase two: apply each override request to its parent, in order
    let ghost first_pass = models_of(events@);
    let ghost reqsm = reqs_model(requests@);
    let nr = requests.len();
    let mut t: usize = 0;
    while t < nr
        invariant
            t <= nr == requests@.len(),
            reqsm == reqs_model(requests@),
            events@.len() == first_pass.len(),
            models_of(events@) == apply_reqs(first_pass, reqsm.take(t as int)),
            forall|k: int| 0 <= k < events@.len() ==> (#[trigger] events@[k]).wf(),
            forall|k: int| 0 <= k < requests@.len() ==> (#[trigger] requests@[k]).1.in_range()
                && requests@[k].0 < events@.len(),
        decreases nr - t,
    {
        let ghost ems_before = models_of(events@);
        proof {
            assert(reqsm.take(t as int + 1).drop_last() =~= reqsm.take(t as int));
            assert(reqsm[t as int] == (requests@[t as int].0 as int, requests@[t as int].1));
        }
        let pair = requests[t];
        let src = pair.0;
        let mo = pair.1;
        match find_parent(&events, src) {
            Some(j) => {
                let has_rule = events[j].rrule.is_some();
                if has_rule {
                    let mut ev = events.remove(j);
                    let ghost removed = events@;
                    let held = ev.rrule.take();
                    ev.rrule = match held {
                        Some(rs) => Some(rrule_add_rdate(rs, mo.instant() - UNIX_EPOCH_SECS)),
                        None => None,
                    };
                    proof {
                        assert(ev.model() == with_rdate(ems_before[j as int], mo));
                    }
                    events.insert(j, ev);
                    proof {
                        assert(events@ =~= removed.insert(j as int, ev));
                        assert(models_of(events@) =~= ems_before.update(
                            j as int, with_rdate(ems_before[j as int], mo),
                        ));
                        assert(models_of(events@) == apply_req(ems_before, src as int, mo));
                    }
                } else {
                    proof {
                        assert(models_of(events@) == apply_req(ems_before, src as int, mo));
                    }
                }
            },
            None => {
                proof {
                    assert(models_of(events@) == apply_req(ems_before, src as int, mo));
                }
            },
        }
        t = t + 1;
    }
    proof {
        assert(reqsm.take(nr as int) =~= reqsm);
        assert(phase1_ok(bs, first_pass, reqsm));
        assert(models_of(events@) == apply_reqs(first_pass, reqsm));
    }
    Ok(events)
}

/// Every event of a successful parse is well-formed.
pub open spec fn ok_events_wf(r: Result<Vec<Event>, IcsError>) -> bool {
    match r {
        Ok(v) => forall|k: int| 0 <= k < v@.len() ==> (#[trigger] v@[k]).wf(),
        Err(_) => true,
    }
}

/// Parses each source text independently: a failure in one source leaves
/// the results of the others untouched, and the caller decides whether to
/// skip or abort.
pub fn load_events(sources: &Vec<String>) -> (r: Vec<Result<Vec<Event>, IcsError>>)
    ensures
        r@.len() == sources@.len(),
        forall|i: int| 0 <= i < r@.len() ==> parse_ics_rel(
            sources@[i]@, result_models(#[trigger] r@[i]),
        ),
        forall|i: int| 0 <= i < r@.len() ==> ok_events_wf(#[trigger] r@[i]),
{
    let n = sources.len();
    let mut out: Vec<Result<Vec<Event>, IcsError>> = Vec::new();
    let mut i: usize = 0;
    while i < n
        invariant
            i <= n == sources@.len(),
            out@.len() == i,
            forall|k: int| 0 <= k < out@.len() ==> parse_ics_rel(
                sources@[k]@, result_models(#[trigger] out@[k]),
            ),
            forall|k: int| 0 <= k < out@.len() ==> ok_events_wf(#[trigger] out@[k]),
        decreases n - i,
    {
        let one = parse_ics(sources[i].as_str());
        out.push(one);
        i = i + 1;
    }
    out
}

} // verus!
