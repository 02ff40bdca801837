use vstd::prelude::*;
use chrono::{Datelike, NaiveDate};
use crate::error::{rejects, validation, AppError};
use crate::text::concat;

verus! {

// ---------------------------------------------------------------------------
// Calendar days
// ---------------------------------------------------------------------------

/// Days are counted as `NaiveDate::num_days_from_ce` counts them (1 January
/// of year 1 is day 1). The range is the one chrono represents: from
/// 1 January of year -262143 to 31 December of year 262142.
pub open spec fn in_calendar(day: int) -> bool {
    -95_746_129 <= day <= 95_745_399
}

/// How chrono prints the date of a day number (`YYYY-MM-DD`).
pub uninterp spec fn date_text(day: i32) -> Seq<char>;

/// The day number of the first day of the month that `day` falls in.
pub uninterp spec fn month_start(day: i32) -> i32;

/// `NaiveDate::from_num_days_from_ce_opt(day)` printed with `Display`.
#[verifier::external_body]
pub(crate) fn day_text(day: i32) -> (t: String)
    requires
        in_calendar(day as int),
    ensures
        t@ == date_text(day),
{
    NaiveDate::from_num_days_from_ce_opt(day).unwrap_or_default().to_string()
}

/// `with_day(1)` on the date of `day`, as a day number. The first of a month
/// is never after the day and at most thirty days before it.
#[verifier::external_body]
fn first_of_month(day: i32) -> (r: i32)
    requires
        in_calendar(day as int),
    ensures
        r == month_start(day),
        r <= day,
        day - r <= 30,
{
    let date = NaiveDate::from_num_days_from_ce_opt(day).unwrap_or_default();
    date.with_day(1).unwrap_or(date).num_days_from_ce()
}

// ---------------------------------------------------------------------------
// Events of a term
// ---------------------------------------------------------------------------

/// What the date rules read of a stored event of the log.
#[derive(Debug, Clone, Copy, PartialEq, Eq, Structural)]
pub struct TermEvent {
    pub id: i64,
    /// Day number of the effective date.
    pub effective_day: i32,
    /// The event this one revokes, if it is a revocation marker's target.
    pub revokes: Option<i64>,
    /// The event is itself a revocation marker.
    pub is_revocation: bool,
    /// The event belongs to the opening change set of the term.
    pub is_opening: bool,
}

/// Some event of `events` revokes the event `id`.
pub open spec fn is_revoked(events: Seq<TermEvent>, id: i64) -> bool {
    exists|i: int| 0 <= i < events.len() && #[trigger] events[i].revokes == Some(id)
}

/// An event counts: it is no revocation marker and nothing revokes it.
pub open spec fn is_live(events: Seq<TermEvent>, e: TermEvent) -> bool {
    !e.is_revocation && !is_revoked(events, e.id)
}

/// The live events among `part`, in order, judged against all of `events`.
pub open spec fn live_among(events: Seq<TermEvent>, part: Seq<TermEvent>) -> Seq<TermEvent>
    decreases part.len(),
{
    if part.len() == 0 {
        Seq::empty()
    } else {
        let rest = live_among(events, part.drop_last());
        if is_live(events, part.last()) {
            rest.push(part.last())
        } else {
            rest
        }
    }
}

fn revoked_in(events: &Vec<TermEvent>, id: i64) -> (b: bool)
    ensures
        b == is_revoked(events@, id),
{
    let mut i: usize = 0;
    while i < events.len()
        invariant
            i <= events@.len(),
            forall|k: int| 0 <= k < i ==> (#[trigger] events@[k]).revokes != Some(id),
        decreases events@.len() - i,
    {
        if events[i].revokes == Some(id) {
            return true;
        }
        i += 1;
    }
    false
}

/// The events that still count: revocation markers and the events they
/// revoke are left out; the order is kept.
pub fn live_events(events: &Vec<TermEvent>) -> (r: Vec<TermEvent>)
    ensures
        r@ == live_among(events@, events@),
{
    let mut out: Vec<TermEvent> = Vec::new();
    let mut i: usize = 0;
    while i < events.len()
        invariant
            i <= events@.len(),
            out@ == live_among(events@, events@.take(i as int)),
        decreases events@.len() - i,
    {
        let e = events[i];
        proof {
            let t = events@.take(i + 1);
            assert(t.drop_last() =~= events@.take(i as int));
            assert(t.last() == e);
        }
        if !e.is_revocation && !revoked_in(events, e.id) {
            out.push(e);
        }
        i += 1;
    }
    assert(events@.take(events@.len() as int) =~= events@);
    out
}

// ---------------------------------------------------------------------------
// Rules for changing the dates of a term
// ---------------------------------------------------------------------------

pub open spec fn in_span(day: int, start: int, end: int) -> bool {
    start <= day <= end
}

/// Day `d` is inside the old span and outside the new one, or the reverse.
pub open spec fn membership_changes(d: int, old_start: int, old_end: int, new_start: int, new_end: int) -> bool {
    in_span(d, old_start, old_end) != in_span(d, new_start, new_end)
}

/// The first day from the earlier of the two starts up to (not including)
/// `boundary` whose membership in the term changes, if any.
pub open spec fn first_changed_day(old_start: int, old_end: int, new_start: int, new_end: int, boundary: int) -> Option<int> {
    let from = if old_start <= new_start {
        old_start
    } else {
        new_start
    };
    if exists|d: int| from <= d < boundary && #[trigger] membership_changes(d, old_start, old_end, new_start, new_end) {
        Some(
            choose|d: int|
                from <= d < boundary && #[trigger] membership_changes(d, old_start, old_end, new_start, new_end)
                    && forall|e: int| from <= e < d ==> !#[trigger] membership_changes(e, old_start, old_end, new_start, new_end),
        )
    } else {
        None
    }
}

proof fn lemma_first_changed_day_is(old_start: int, old_end: int, new_start: int, new_end: int, boundary: int, d: int)
    requires
        (if old_start <= new_start { old_start } else { new_start }) <= d < boundary,
        membership_changes(d, old_start, old_end, new_start, new_end),
        forall|e: int| (if old_start <= new_start { old_start } else { new_start }) <= e < d ==> !#[trigger] membership_changes(e, old_start, old_end, new_start, new_end),
    ensures
        first_changed_day(old_start, old_end, new_start, new_end, boundary) == Some(d),
{
    let from = if old_start <= new_start { old_start } else { new_start };
    let c = choose|c: int|
        from <= c < boundary && #[trigger] membership_changes(c, old_start, old_end, new_start, new_end)
            && forall|e: int| from <= e < c ==> !#[trigger] membership_changes(e, old_start, old_end, new_start, new_end);
    assert(from <= c < boundary && membership_changes(c, old_start, old_end, new_start, new_end));
    if c < d {
        assert(!membership_changes(c, old_start, old_end, new_start, new_end));
    }
    if d < c {
        assert(!membership_changes(d, old_start, old_end, new_start, new_end));
    }
}

pub open spec fn past_month_message(day: i32) -> Seq<char> {
    date_text(day)
        + " önceki bir aya düşüyor; o ayın ek ders puantajı ilçeye gönderildi, dönem tarihleri artık o günü değiştiremez."@
}

/// Monthly extra-lesson sheets are sent at the end of each month: no day
/// before the first of the current month may enter or leave the term.
pub fn reject_if_touches_a_past_month(old_start: i32, old_end: i32, new_start: i32, new_end: i32, today: i32) -> (r: Result<(), AppError>)
    requires
        in_calendar(old_start as int),
        in_calendar(new_start as int),
        in_calendar(today as int),
    ensures
        match first_changed_day(old_start as int, old_end as int, new_start as int, new_end as int, month_start(today) as int) {
            Some(d) => rejects(r, past_month_message(d as i32)),
            None => r is Ok,
        },
{
    let boundary = first_of_month(today);
    let from = if old_start <= new_start {
        old_start
    } else {
        new_start
    };
    let mut d = from;
    while d < boundary
        invariant
            from <= d,
            d <= boundary || from >= boundary,
            from == (if old_start <= new_start { old_start } else { new_start }),
            boundary == month_start(today),
            in_calendar(from as int),
            boundary <= today,
            in_calendar(today as int),
            forall|e: int| from <= e < d ==> !#[trigger] membership_changes(e, old_start as int, old_end as int, new_start as int, new_end as int),
        decreases boundary - d,
    {
        let was_in = d >= old_start && d <= old_end;
        let now_in = d >= new_start && d <= new_end;
        if was_in != now_in {
            proof {
                lemma_first_changed_day_is(old_start as int, old_end as int, new_start as int, new_end as int, boundary as int, d as int);
            }
            let t = day_text(d);
            return Err(AppError::Validation(
                concat(
                    t.as_str(),
                    " önceki bir aya düşüyor; o ayın ek ders puantajı ilçeye gönderildi, dönem tarihleri artık o günü değiştiremez.",
                ),
            ));
        }
        d = d + 1;
    }
    proof {
        let from_i = from as int;
        if exists|e: int| from_i <= e < boundary && #[trigger] membership_changes(e, old_start as int, old_end as int, new_start as int, new_end as int) {
            let e = choose|e: int| from_i <= e < boundary && #[trigger] membership_changes(e, old_start as int, old_end as int, new_start as int, new_end as int);
            assert(e < d);
        }
    }
    Ok(())
}

/// The first live event, in log order, that is not part of the opening and
/// takes effect before `new_start`.
pub open spec fn first_early_event(live: Seq<TermEvent>, new_start: int) -> Option<int> {
    if exists|i: int| 0 <= i < live.len() && !live[i].is_opening && #[trigger] live[i].effective_day < new_start {
        Some(
            choose|i: int|
                0 <= i < live.len() && !live[i].is_opening && #[trigger] live[i].effective_day < new_start
                    && forall|j: int| 0 <= j < i ==> !(!live[j].is_opening && #[trigger] live[j].effective_day < new_start),
        )
    } else {
        None
    }
}

/// The first live event, in log order, that takes effect after `new_end`.
pub open spec fn first_late_event(live: Seq<TermEvent>, new_end: int) -> Option<int> {
    if exists|i: int| 0 <= i < live.len() && #[trigger] live[i].effective_day > new_end {
        Some(
            choose|i: int|
                0 <= i < live.len() && #[trigger] live[i].effective_day > new_end && forall|j: int|
                    0 <= j < i ==> !(#[trigger] live[j].effective_day > new_end),
        )
    } else {
        None
    }
}

pub open spec fn early_event_message(day: i32) -> Seq<char> {
    "Dönem başlangıcı "@ + date_text(day) + " tarihli bir kayıttan sonraya alınamaz."@
}

pub open spec fn late_event_message(day: i32) -> Seq<char> {
    "Dönem bitişi "@ + date_text(day) + " tarihli bir kayıttan önceye alınamaz."@
}

/// Every event of the term lies in the calendar range.
pub open spec fn events_in_calendar(events: Seq<TermEvent>) -> bool {
    forall|i: int| 0 <= i < events.len() ==> in_calendar(#[trigger] events[i].effective_day as int)
}

proof fn lemma_live_among_in_calendar(events: Seq<TermEvent>, part: Seq<TermEvent>)
    requires
        events_in_calendar(part),
    ensures
        events_in_calendar(live_among(events, part)),
    decreases part.len(),
{
    if part.len() > 0 {
        assert(events_in_calendar(part.drop_last())) by {
            assert forall|i: int| 0 <= i < part.drop_last().len() implies in_calendar(#[trigger] part.drop_last()[i].effective_day as int) by {
                assert(part.drop_last()[i] == part[i]);
            }
        }
        lemma_live_among_in_calendar(events, part.drop_last());
        assert(in_calendar(part[part.len() - 1].effective_day as int));
        let rest = live_among(events, part.drop_last());
        let whole = live_among(events, part);
        assert forall|i: int| 0 <= i < whole.len() implies in_calendar(#[trigger] whole[i].effective_day as int) by {
            if i < rest.len() {
                assert(whole[i] == rest[i]);
            }
        }
    }
}

/// The start of a term may not move past a live event other than the
/// opening ones.
pub fn reject_if_start_moves_past_a_non_opening_event(events: &Vec<TermEvent>, new_start: i32) -> (r: Result<(), AppError>)
    requires
        events_in_calendar(events@),
    ensures
        match first_early_event(live_among(events@, events@), new_start as int) {
            Some(i) => rejects(r, early_event_message(live_among(events@, events@)[i].effective_day)),
            None => r is Ok,
        },
{
    let live = live_events(events);
    proof {
        lemma_live_among_in_calendar(events@, events@);
    }
    let mut i: usize = 0;
    while i < live.len()
        invariant
            i <= live@.len(),
            live@ == live_among(events@, events@),
            events_in_calendar(live@),
            forall|j: int| 0 <= j < i ==> !(!live@[j].is_opening && #[trigger] live@[j].effective_day < new_start),
        decreases live@.len() - i,
    {
        let e = live[i];
        if !e.is_opening && e.effective_day < new_start {
            proof {
                assert(!live@[i as int].is_opening && live@[i as int].effective_day < new_start);
                assert(exists|c: int| 0 <= c < live@.len() && !live@[c].is_opening && #[trigger] live@[c].effective_day < new_start);
                let c = choose|c: int|
                    0 <= c < live@.len() && !live@[c].is_opening && #[trigger] live@[c].effective_day < new_start
                        && forall|j: int| 0 <= j < c ==> !(!live@[j].is_opening && #[trigger] live@[j].effective_day < new_start);
                assert(!live@[i as int].is_opening && live@[i as int].effective_day < new_start);
                if c < i {
                    assert(!(!live@[c].is_opening && live@[c].effective_day < new_start));
                }
                if i < c {
                    assert(!(!live@[i as int].is_opening && live@[i as int].effective_day < new_start));
                }
                assert(first_early_event(live@, new_start as int) == Some(i as int));
                assert(in_calendar(live@[i as int].effective_day as int));
            }
            let t = day_text(e.effective_day);
            let a = concat("Dönem başlangıcı ", t.as_str());
            return Err(AppError::Validation(concat(a.as_str(), " tarihli bir kayıttan sonraya alınamaz.")));
        }
        i += 1;
    }
    Ok(())
}

/// The end of a term may not move before any live event.
pub fn reject_if_end_moves_before_any_event(events: &Vec<TermEvent>, new_end: i32) -> (r: Result<(), AppError>)
    requires
        events_in_calendar(events@),
    ensures
        match first_late_event(live_among(events@, events@), new_end as int) {
            Some(i) => rejects(r, late_event_message(live_among(events@, events@)[i].effective_day)),
            None => r is Ok,
        },
{
    let live = live_events(events);
    proof {
        lemma_live_among_in_calendar(events@, events@);
    }
    let mut i: usize = 0;
    while i < live.len()
        invariant
            i <= live@.len(),
            live@ == live_among(events@, events@),
            events_in_calendar(live@),
            forall|j: int| 0 <= j < i ==> !(#[trigger] live@[j].effective_day > new_end),
        decreases live@.len() - i,
    {
        let e = live[i];
        if e.effective_day > new_end {
            proof {
                assert(live@[i as int].effective_day > new_end);
                assert(exists|c: int| 0 <= c < live@.len() && #[trigger] live@[c].effective_day > new_end);
                let c = choose|c: int|
                    0 <= c < live@.len() && #[trigger] live@[c].effective_day > new_end && forall|j: int|
                        0 <= j < c ==> !(#[trigger] live@[j].effective_day > new_end);
                assert(live@[i as int].effective_day > new_end);
                if c < i {
                    assert(!(live@[c].effective_day > new_end));
                }
                if i < c {
                    assert(!(live@[i as int].effective_day > new_end));
                }
                assert(first_late_event(live@, new_end as int) == Some(i as int));
                assert(in_calendar(live@[i as int].effective_day as int));
            }
            let t = day_text(e.effective_day);
            let a = concat("Dönem bitişi ", t.as_str());
            return Err(AppError::Validation(concat(a.as_str(), " tarihli bir kayıttan önceye alınamaz.")));
        }
        i += 1;
    }
    Ok(())
}

/// The end of a term must come after its start.
pub fn check_term_order(start: i32, end: i32) -> (r: Result<(), AppError>)
    ensures
        end <= start ==> rejects(r, "Dönem bitiş tarihi başlangıçtan sonra olmalıdır."@),
        end > start ==> r is Ok,
{
    if end <= start {
        return Err(validation("Dönem bitiş tarihi başlangıçtan sonra olmalıdır."));
    }
    Ok(())
}

/// All rules for moving the dates of a term from `old_start..=old_end` to
/// `new_start..=new_end`, in the order they are applied: the order of the
/// new dates, the past-month rule, then the two rules on the events of the
/// term. The first rule broken decides the error.
pub fn check_term_date_update(
    old_start: i32,
    old_end: i32,
    new_start: i32,
    new_end: i32,
    today: i32,
    events: &Vec<TermEvent>,
) -> (r: Result<(), AppError>)
    requires
        in_calendar(old_start as int),
        in_calendar(new_start as int),
        in_calendar(today as int),
        events_in_calendar(events@),
    ensures
        new_end <= new_start ==> rejects(r, "Dönem bitiş tarihi başlangıçtan sonra olmalıdır."@),
        new_end > new_start && first_changed_day(old_start as int, old_end as int, new_start as int, new_end as int, month_start(today) as int) is Some ==>
            rejects(r, past_month_message(first_changed_day(old_start as int, old_end as int, new_start as int, new_end as int, month_start(today) as int)->0 as i32)),
        new_end > new_start && first_changed_day(old_start as int, old_end as int, new_start as int, new_end as int, month_start(today) as int) is None
            && first_early_event(live_among(events@, events@), new_start as int) is Some ==>
            rejects(r, early_event_message(live_among(events@, events@)[first_early_event(live_among(events@, events@), new_start as int)->0].effective_day)),
        new_end > new_start && first_changed_day(old_start as int, old_end as int, new_start as int, new_end as int, month_start(today) as int) is None
            && first_early_event(live_among(events@, events@), new_start as int) is None
            && first_late_event(live_among(events@, events@), new_end as int) is Some ==>
            rejects(r, late_event_message(live_among(events@, events@)[first_late_event(live_among(events@, events@), new_end as int)->0].effective_day)),
        new_end > new_start && first_changed_day(old_start as int, old_end as int, new_start as int, new_end as int, month_start(today) as int) is None
            && first_early_event(live_among(events@, events@), new_start as int) is None
            && first_late_event(live_among(events@, events@), new_end as int) is None ==> r is Ok,
{
    match check_term_order(new_start, new_end) {
        Err(e) => return Err(e),
        Ok(()) => {},
    }
    match reject_if_touches_a_past_month(old_start, old_end, new_start, new_end, today) {
        Err(e) => return Err(e),
        Ok(()) => {},
    }
    match reject_if_start_moves_past_a_non_opening_event(events, new_start) {
        Err(e) => return Err(e),
        Ok(()) => {},
    }
    reject_if_end_moves_before_any_event(events, new_end)
}

} // verus!
