//! The window selector: maps an event set and a query window to the sorted,
//! deduplicated sequence of event occurrences intersecting the window.
use crate::civil::{SECS_MAX, UNIX_EPOCH_SECS};
use crate::event::Event;
use crate::moment::Moment;
use crate::rrule_api::{
    rrule_core, rrule_exdates, rrule_next_from, rrule_next_on_or_after, rrule_rdates,
};
use vstd::prelude::*;

verus! {

/// The occurrence an event contributes to the window `[since, end]`, if any.
/// A recurring event contributes its next candidate occurrence at or after
/// `since` when that lies at or before `end`, projected with the template's
/// own duration; a plain event contributes itself when its start lies in the
/// window (its end is not consulted: events already in progress at `since`
/// are excluded).
pub open spec fn occurrence_of(e: Event, since: int, end: int) -> Option<Event> {
    match e.rrule {
        Some(rs) => match rrule_next_from(
            rrule_core(rs), rrule_exdates(rs), rrule_rdates(rs), since - UNIX_EPOCH_SECS,
        ) {
            Some(u) => {
                let occ = u + UNIX_EPOCH_SECS;
                let dur = e.end.spec_instant() - e.start.spec_instant();
                if occ <= end {
                    Some(
                        Event {
                            start: Moment::DateTime(occ as i64),
                            end: Moment::DateTime((occ + dur) as i64),
                            ..e
                        },
                    )
                } else {
                    None
                }
            },
            None => None,
        },
        None => if since <= e.start.spec_instant() <= end {
            Some(e)
        } else {
            None
        },
    }
}

/// The occurrences of `events` in `[since, end]`, in input order.
pub open spec fn occurrences(events: Seq<Event>, since: int, end: int) -> Seq<Event>
    decreases events.len(),
{
    if events.len() == 0 {
        Seq::empty()
    } else {
        let front = occurrences(events.drop_last(), since, end);
        match occurrence_of(events.last(), since, end) {
            Some(e) => front.push(e),
            None => front,
        }
    }
}

/// Order on occurrences: start instant, ties broken by end instant.
pub open spec fn event_le(a: Event, b: Event) -> bool {
    a.start.spec_instant() < b.start.spec_instant() || (a.start.spec_instant()
        == b.start.spec_instant() && a.end.spec_instant() <= b.end.spec_instant())
}

/// Stable insertion: `e` goes after every element less than or equal to it.
pub open spec fn insert_sorted(s: Seq<Event>, e: Event) -> Seq<Event>
    decreases s.len(),
{
    if s.len() == 0 {
        seq![e]
    } else if event_le(s.last(), e) {
        s.push(e)
    } else {
        insert_sorted(s.drop_last(), e).push(s.last())
    }
}

/// Stable insertion sort by `(start, end)`.
pub open spec fn sort_events(s: Seq<Event>) -> Seq<Event>
    decreases s.len(),
{
    if s.len() == 0 {
        Seq::empty()
    } else {
        insert_sorted(sort_events(s.drop_last()), s.last())
    }
}

/// Two occurrences are exact duplicates when start, end and summary agree.
pub open spec fn dup_key(e: Event) -> (int, int, Option<Seq<char>>) {
    (e.start.spec_instant(), e.end.spec_instant(), e.summary.deep_view())
}

/// Whether some element of `s` has duplicate key `k`.
pub open spec fn has_key(s: Seq<Event>, k: (int, int, Option<Seq<char>>)) -> bool {
    exists|i: int| 0 <= i < s.len() && dup_key(#[trigger] s[i]) == k
}

/// Keeps the first occurrence of each duplicate key.
pub open spec fn dedup_events(s: Seq<Event>) -> Seq<Event>
    decreases s.len(),
{
    if s.len() == 0 {
        Seq::empty()
    } else {
        let front = dedup_events(s.drop_last());
        if has_key(s.drop_last(), dup_key(s.last())) {
            front
        } else {
            front.push(s.last())
        }
    }
}

/// What `select` returns: the deduplicated, sorted occurrences of `events`
/// in the window from `since` for `horizon` seconds.
pub open spec fn select_spec(events: Seq<Event>, since: int, horizon: int) -> Seq<Event> {
    dedup_events(sort_events(occurrences(events, since, since + horizon)))
}

/// Selection is a pure function of its inputs: equal event sequences and
/// equal windows select equal outputs, with no hidden state; in particular
/// a second identical call returns the identical result.
pub proof fn lemma_select_idempotent(
    e1: Seq<Event>,
    e2: Seq<Event>,
    since: int,
    horizon: int,
)
    requires
        e1 == e2,
    ensures
        select_spec(e1, since, horizon) == select_spec(e2, since, horizon),
{
}

/// Non-strict sortedness by `(start, end)`.
pub open spec fn sorted_events(s: Seq<Event>) -> bool {
    forall|i: int, j: int| 0 <= i <= j < s.len() ==> event_le(#[trigger] s[i], #[trigger] s[j])
}

/// Insertion into a sorted sequence keeps it sorted, adds exactly the new
/// element, and invents no others.
proof fn lemma_insert_sorted_props(s: Seq<Event>, e: Event)
    requires
        sorted_events(s),
    ensures
        sorted_events(insert_sorted(s, e)),
        insert_sorted(s, e).len() == s.len() + 1,
        forall|i: int|
            0 <= i < insert_sorted(s, e).len() ==> insert_sorted(s, e)[i] == e || s.contains(
                #[trigger] insert_sorted(s, e)[i],
            ),
    decreases s.len(),
{
    let r = insert_sorted(s, e);
    if s.len() == 0 {
        assert(r =~= seq![e]);
    } else if event_le(s.last(), e) {
        assert(r == s.push(e));
        assert forall|i: int| 0 <= i < r.len() - 1 implies event_le(#[trigger] r[i], e) by {
            assert(event_le(s[i], s.last()));
        }
        assert forall|i: int| 0 <= i < r.len() - 1 implies s.contains(#[trigger] r[i]) by {
            assert(r[i] == s[i]);
        }
    } else {
        let front = s.drop_last();
        assert(forall|i: int, j: int|
            0 <= i <= j < front.len() ==> event_le(#[trigger] front[i], #[trigger] front[j]));
        lemma_insert_sorted_props(front, e);
        let fr = insert_sorted(front, e);
        assert(r == fr.push(s.last()));
        assert forall|i: int| 0 <= i < fr.len() implies event_le(#[trigger] fr[i], s.last()) by {
            if fr[i] == e {
                // e sorts strictly before the last element here
                assert(event_le(e, s.last()));
            } else {
                let j = choose|j: int| 0 <= j < front.len() && front[j] == fr[i];
                assert(event_le(s[j], s.last()));
            }
        }
        assert forall|i: int| 0 <= i < r.len() implies r[i] == e || s.contains(
            #[trigger] r[i],
        ) by {
            if i < fr.len() {
                if fr[i] != e {
                    let j = choose|j: int| 0 <= j < front.len() && front[j] == fr[i];
                    assert(r[i] == s[j]);
                }
            } else {
                assert(r[i] == s[s.len() - 1]);
            }
        }
    }
}

/// Insertion sort sorts, and invents no elements.
proof fn lemma_sort_events_sorted(s: Seq<Event>)
    ensures
        sorted_events(sort_events(s)),
        sort_events(s).len() == s.len(),
        forall|i: int|
            0 <= i < sort_events(s).len() ==> s.contains(#[trigger] sort_events(s)[i]),
    decreases s.len(),
{
    if s.len() > 0 {
        let front = s.drop_last();
        lemma_sort_events_sorted(front);
        lemma_insert_sorted_props(sort_events(front), s.last());
        let r = sort_events(s);
        assert forall|i: int| 0 <= i < r.len() implies s.contains(#[trigger] r[i]) by {
            if r[i] == s.last() {
                assert(s[s.len() - 1] == s.last());
            } else {
                let j = choose|j: int|
                    0 <= j < sort_events(front).len() && sort_events(front)[j] == r[i];
                assert(front.contains(r[i]));
                let k = choose|k: int| 0 <= k < front.len() && front[k] == r[i];
                assert(s[k] == r[i]);
            }
        }
    }
}

/// Collapsing duplicates keeps a sorted sequence sorted.
proof fn lemma_dedup_keeps_sorted(s: Seq<Event>)
    requires
        sorted_events(s),
    ensures
        sorted_events(dedup_events(s)),
        forall|i: int|
            0 <= i < dedup_events(s).len() ==> s.contains(#[trigger] dedup_events(s)[i]),
    decreases s.len(),
{
    if s.len() > 0 {
        let front = s.drop_last();
        assert(forall|i: int, j: int|
            0 <= i <= j < front.len() ==> event_le(#[trigger] front[i], #[trigger] front[j]));
        lemma_dedup_keeps_sorted(front);
        let df = dedup_events(front);
        assert forall|i: int| 0 <= i < df.len() implies s.contains(#[trigger] df[i])
            && event_le(df[i], s.last()) by {
            let j = choose|j: int| 0 <= j < front.len() && front[j] == df[i];
            assert(s[j] == df[i]);
            assert(event_le(s[j], s.last()));
        }
        let r = dedup_events(s);
        if !has_key(front, dup_key(s.last())) {
            assert(r == df.push(s.last()));
            assert(s.contains(s.last())) by {
                assert(s[s.len() - 1] == s.last());
            }
        }
    }
}

/// The selector's output is sorted by `(start, end)` ascending, and holds
/// only occurrences the window computation produced.
pub proof fn lemma_select_sorted(events: Seq<Event>, since: int, horizon: int)
    ensures
        sorted_events(select_spec(events, since, horizon)),
{
    let occ = occurrences(events, since, since + horizon);
    lemma_sort_events_sorted(occ);
    lemma_dedup_keeps_sorted(sort_events(occ));
}

/// A key occurs in a sequence exactly when it occurs in its deduplication.
proof fn lemma_dedup_keys(s: Seq<Event>, k: (int, int, Option<Seq<char>>))
    ensures
        has_key(s, k) <==> has_key(dedup_events(s), k),
    decreases s.len(),
{
    if s.len() > 0 {
        lemma_dedup_keys(s.drop_last(), k);
        let front = dedup_events(s.drop_last());
        assert(forall|i: int| 0 <= i < s.len() - 1 ==> s.drop_last()[i] == #[trigger] s[i]);
        let dup = has_key(s.drop_last(), dup_key(s.last()));

        // forward: a key in s is in dedup_events(s)
        if has_key(s, k) {
            let i = choose|i: int| 0 <= i < s.len() && dup_key(#[trigger] s[i]) == k;
            if i < s.len() - 1 {
                assert(dup_key(s.drop_last()[i]) == k);
                assert(has_key(s.drop_last(), k));
                let j = choose|j: int| 0 <= j < front.len() && dup_key(#[trigger] front[j]) == k;
                if dup {
                    assert(dup_key(dedup_events(s)[j]) == k);
                } else {
                    assert(dedup_events(s)[j] == front[j]);
                }
                assert(has_key(dedup_events(s), k));
            } else {
                // the key is the last element's
                if dup {
                    assert(has_key(s.drop_last(), k));
                    let j2 = choose|j2: int|
                        0 <= j2 < front.len() && dup_key(#[trigger] front[j2]) == k;
                    assert(dup_key(dedup_events(s)[j2]) == k);
                    assert(has_key(dedup_events(s), k));
                } else {
                    assert(dedup_events(s) == front.push(s.last()));
                    assert(dup_key(dedup_events(s)[dedup_events(s).len() - 1]) == k);
                    assert(has_key(dedup_events(s), k));
                }
            }
        }

        // backward: a key in dedup_events(s) is in s
        if has_key(dedup_events(s), k) {
            let i = choose|i: int|
                0 <= i < dedup_events(s).len() && dup_key(#[trigger] dedup_events(s)[i]) == k;
            if dup {
                assert(dup_key(front[i]) == k);
                assert(has_key(s.drop_last(), k));
                let j = choose|j: int|
                    0 <= j < s.drop_last().len() && dup_key(#[trigger] s.drop_last()[j]) == k;
                assert(dup_key(s[j]) == k);
                assert(has_key(s, k));
            } else {
                assert(dedup_events(s) == front.push(s.last()));
                if i < front.len() {
                    assert(dup_key(front[i]) == k);
                    assert(has_key(s.drop_last(), k));
                    let j = choose|j: int|
                        0 <= j < s.drop_last().len() && dup_key(#[trigger] s.drop_last()[j])
                            == k;
                    assert(dup_key(s[j]) == k);
                    assert(has_key(s, k));
                } else {
                    assert(dup_key(s[s.len() - 1]) == k);
                    assert(has_key(s, k));
                }
            }
        }
    }
}

/// Splitting view of stable insertion: if everything at or past `j` is
/// greater than `e` and (when `j > 0`) the element before `j` is not,
/// inserting `e` places it exactly at `j`.
proof fn lemma_insert_at(s: Seq<Event>, e: Event, j: int)
    requires
        0 <= j <= s.len(),
        forall|k: int| j <= k < s.len() ==> !event_le(#[trigger] s[k], e),
        j > 0 ==> event_le(s[j - 1], e),
    ensures
        insert_sorted(s, e) == s.take(j) + seq![e] + s.skip(j),
    decreases s.len(),
{
    if s.len() == 0 {
        assert(insert_sorted(s, e) =~= s.take(j) + seq![e] + s.skip(j));
    } else if j == s.len() {
        assert(event_le(s[j - 1], e));
        assert(insert_sorted(s, e) == s.push(e));
        assert(s.push(e) =~= s.take(j) + seq![e] + s.skip(j));
    } else {
        assert(!event_le(s[s.len() - 1], e));
        let front = s.drop_last();
        assert(forall|k: int| j <= k < front.len() ==> !event_le(#[trigger] front[k], e));
        if j > 0 {
            assert(front[j - 1] == s[j - 1]);
        }
        lemma_insert_at(front, e, j);
        assert(insert_sorted(s, e) == (front.take(j) + seq![e] + front.skip(j)).push(s.last()));
        assert((front.take(j) + seq![e] + front.skip(j)).push(s.last()) =~= s.take(j) + seq![e]
            + s.skip(j));
    }
}

impl Event {
    /// The next candidate occurrence of this event's recurrence at or after
    /// `since`, honoring its exception and override instants; `None` when
    /// the event has no recurrence or the rule yields nothing at or after
    /// `since`.
    pub fn next_on_or_after(&self, since: &Moment) -> (r: Option<Moment>)
        requires
            since.in_range(),
        ensures
            match self.rrule {
                Some(rs) => match rrule_next_from(
                    rrule_core(rs),
                    rrule_exdates(rs),
                    rrule_rdates(rs),
                    since.spec_instant() - UNIX_EPOCH_SECS,
                ) {
                    Some(u) => r == Some(Moment::DateTime((u + UNIX_EPOCH_SECS) as i64)),
                    None => r is None,
                },
                None => r is None,
            },
    {
        match &self.rrule {
            Some(rs) => match rrule_next_on_or_after(rs, since.instant() - UNIX_EPOCH_SECS) {
                Some(u) => Some(Moment::DateTime(u + UNIX_EPOCH_SECS)),
                None => None,
            },
            None => None,
        }
    }
}

/// Compares occurrences by `(start, end)`.
fn event_le_x(a: &Event, b: &Event) -> (r: bool)
    ensures
        r == event_le(*a, *b),
{
    let astart = a.start.instant();
    let bstart = b.start.instant();
    astart < bstart || (astart == bstart && a.end.instant() <= b.end.instant())
}

/// Inserts `e` into the sorted vector, after any equal keys (stable).
fn insert_event(out: &mut Vec<Event>, e: Event)
    ensures
        final(out)@ == insert_sorted(old(out)@, e),
{
    let mut j: usize = out.len();
    while j > 0 && !event_le_x(&out[j - 1], &e)
        invariant
            j <= out@.len(),
            forall|k: int| j <= k < out@.len() ==> !event_le(#[trigger] out@[k], e),
        decreases j,
    {
        j = j - 1;
    }
    proof {
        lemma_insert_at(out@, e, j as int);
    }
    out.insert(j, e);
    proof {
        assert(final(out)@ =~= old(out)@.take(j as int) + seq![e] + old(out)@.skip(j as int));
    }
}

/// Whether `out` already holds an occurrence with `e`'s duplicate key.
fn has_dup(out: &Vec<Event>, e: &Event) -> (r: bool)
    ensures
        r == has_key(out@, dup_key(*e)),
{
    let n = out.len();
    let mut i: usize = 0;
    while i < n
        invariant
            i <= n == out@.len(),
            forall|k: int| 0 <= k < i ==> dup_key(#[trigger] out@[k]) != dup_key(*e),
        decreases n - i,
    {
        let same_summary = match (&out[i].summary, &e.summary) {
            (Some(a), Some(b)) => a.eq(b),
            (None, None) => true,
            _ => false,
        };
        let same = out[i].start.instant() == e.start.instant() && out[i].end.instant()
            == e.end.instant() && same_summary;
        proof {
            assert(same == (dup_key(out@[i as int]) == dup_key(*e)));
        }
        if same {
            return true;
        }
        i = i + 1;
    }
    false
}

/// Selects the occurrences of `events` that intersect the window starting
/// at `since` and extending `horizon` seconds, sorted by `(start, end)`
/// with exact duplicates (same start, end and summary) collapsed to one.
/// Each recurring event contributes at most its single next occurrence.
pub fn select(events: Vec<Event>, since: &Moment, horizon: i64) -> (r: Vec<Event>)
    requires
        since.in_range(),
        0 <= horizon < SECS_MAX,
        forall|i: int| 0 <= i < events@.len() ==> (#[trigger] events@[i]).wf(),
    ensures
        r@ == select_spec(events@, since.spec_instant(), horizon as int),
{
    let ghost orig = events@;
    let since_secs = since.instant();
    let window_end: i64 = since_secs + horizon;
    let mut events = events;
    let total: usize = events.len();
    let mut picked: Vec<Event> = Vec::new();

    // gather each event's occurrence in the window, in input order
    let mut idx: usize = 0;
    while events.len() > 0
        invariant
            orig.skip(idx as int) == events@,
            idx + events@.len() == orig.len(),
            orig.len() == total,
            picked@ == occurrences(orig.take(idx as int), since_secs as int, window_end as int),
            forall|i: int| 0 <= i < orig.len() ==> (#[trigger] orig[i]).wf(),
            since_secs == since.spec_instant(),
            0 <= since_secs < SECS_MAX,
            window_end == since_secs + horizon,
            since_secs + horizon < 2 * SECS_MAX,
        decreases events@.len(),
    {
        let mut e = events.remove(0);
        proof {
            assert(e == orig[idx as int]);
            assert(orig.skip(idx as int).skip(1) =~= orig.skip(idx as int + 1));
            assert(orig.take(idx as int + 1).drop_last() =~= orig.take(idx as int));
            assert(orig.take(idx as int + 1).last() == orig[idx as int]);
        }
        let picked_one: Option<Event> = match &e.rrule {
            Some(rs) => {
                let next = rrule_next_on_or_after(rs, since_secs - UNIX_EPOCH_SECS);
                match next {
                    Some(u) => {
                        let occ: i64 = u + UNIX_EPOCH_SECS;
                        if occ <= window_end {
                            let dur = e.duration();
                            e.start = Moment::DateTime(occ);
                            e.end = Moment::DateTime(occ + dur);
                            Some(e)
                        } else {
                            None
                        }
                    },
                    None => None,
                }
            },
            None => {
                let st = e.start.instant();
                if since_secs <= st && st <= window_end {
                    Some(e)
                } else {
                    None
                }
            },
        };
        match picked_one {
            Some(p) => picked.push(p),
            None => (),
        }
        idx = idx + 1;
    }
    proof {
        assert(orig.take(idx as int) =~= orig);
    }

    // stable insertion sort by (start, end)
    let ghost picked_seq = picked@;
    let picked_total: usize = picked.len();
    let mut sorted: Vec<Event> = Vec::new();
    let mut i: usize = 0;
    while picked.len() > 0
        invariant
            picked_seq.skip(i as int) == picked@,
            i + picked@.len() == picked_seq.len(),
            picked_seq.len() == picked_total,
            sorted@ == sort_events(picked_seq.take(i as int)),
        decreases picked@.len(),
    {
        let e = picked.remove(0);
        proof {
            assert(e == picked_seq[i as int]);
            assert(picked_seq.skip(i as int).skip(1) =~= picked_seq.skip(i as int + 1));
            assert(picked_seq.take(i as int + 1).drop_last() =~= picked_seq.take(i as int));
            assert(picked_seq.take(i as int + 1).last() == picked_seq[i as int]);
        }
        insert_event(&mut sorted, e);
        i = i + 1;
    }
    proof {
        assert(picked_seq.take(i as int) =~= picked_seq);
    }

    // collapse exact duplicates, keeping first occurrences
    let ghost sorted_seq = sorted@;
    let sorted_total: usize = sorted.len();
    let mut out: Vec<Event> = Vec::new();
    let mut k: usize = 0;
    while sorted.len() > 0
        invariant
            sorted_seq.skip(k as int) == sorted@,
            k + sorted@.len() == sorted_seq.len(),
            sorted_seq.len() == sorted_total,
            out@ == dedup_events(sorted_seq.take(k as int)),
        decreases sorted@.len(),
    {
        let e = sorted.remove(0);
        proof {
            assert(e == sorted_seq[k as int]);
            assert(sorted_seq.skip(k as int).skip(1) =~= sorted_seq.skip(k as int + 1));
            assert(sorted_seq.take(k as int + 1).drop_last() =~= sorted_seq.take(k as int));
            assert(sorted_seq.take(k as int + 1).last() == sorted_seq[k as int]);
        }
        let dup = has_dup(&out, &e);
        proof {
            lemma_dedup_keys(sorted_seq.take(k as int), dup_key(e));
            assert(forall|j: int| 0 <= j < k ==> sorted_seq.take(k as int)[j]
                == sorted_seq[j]);
        }
        if !dup {
            out.push(e);
        }
        k = k + 1;
    }
    proof {
        assert(sorted_seq.take(k as int) =~= sorted_seq);
    }
    out
}

} // verus!
