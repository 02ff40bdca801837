use vstd::prelude::*;
use crate::assignment::{board_warning_texts, board_warnings, parse_slot_key, slot_of_key, BoardTeacher};
use crate::settings::{hour_setting, lesson_bounds, lesson_hour_bounds, Settings, DEFAULT_MAX_DAILY_LESSONS};
use crate::availability::full_name;
use crate::model::{Assignment, ClassWorkplaceDay, CompanyTermHours, Slot, Student};
use crate::ordered::{has_text, increasing_days, increasing_texts, insert_day, insert_text};
use crate::sorting::{is_permutation, key_at, keys_view, sorts_stably, stable_order, SortKey};
use crate::teaching_load::fits_i64;
use crate::text::{chars_of, concat, texts_of};

verus! {

/// A company card on the assignment board.
#[derive(Debug, Clone)]
pub struct BoardCompany {
    pub company_id: i64,
    pub company_name: String,
    pub address_text: String,
    pub district: String,
    pub student_count: i64,
    pub student_names: Vec<String>,
    /// Branches of the company's students, sorted, each once.
    pub branches: Vec<String>,
    /// Awarded weekly hours; 0 for an honorary visit.
    pub awarded_hours: i64,
    pub is_honorary: bool,
    /// No award was entered: the company can be assigned but carries no hours.
    pub hours_missing: bool,
    /// Days (1-5) on which the classes of its students are at workplaces.
    pub workplace_days: Vec<i64>,
    pub assigned_teacher_id: Option<i64>,
    pub visit_day: Option<i64>,
    pub visit_hour: Option<i64>,
    /// Last hour of the visit block, inclusive.
    pub visit_end_hour: Option<i64>,
    pub is_forced: bool,
    pub force_reason: Option<String>,
}

/// The students placed at `company`, in order.
pub open spec fn students_of(students: Seq<Student>, company: i64) -> Seq<Student>
    decreases students.len(),
{
    if students.len() == 0 {
        Seq::empty()
    } else {
        let rest = students_of(students.drop_last(), company);
        if students.last().company_id == Some(company) {
            rest.push(students.last())
        } else {
            rest
        }
    }
}

/// Day `d` is a workplace day of the class of one of `students`.
pub open spec fn visitable_day(students: Seq<Student>, rows: Seq<ClassWorkplaceDay>, d: i64) -> bool {
    exists|i: int, j: int|
        0 <= i < students.len() && 0 <= j < rows.len() && #[trigger] rows[j].grade@ == #[trigger] students[i].grade@
            && rows[j].day_of_week == d
}

/// Some of `students` studies `branch`.
pub open spec fn has_branch(students: Seq<Student>, branch: Seq<char>) -> bool {
    exists|i: int| 0 <= i < students.len() && #[trigger] students[i].branch@ == branch
}

/// The card of a company, from its students, the class-day rows, its award
/// and its placement; `visit_span` is the number of hours its visit block
/// covers.
pub open spec fn card_ok(
    c: BoardCompany,
    company_id: i64,
    students: Seq<Student>,
    rows: Seq<ClassWorkplaceDay>,
    hours: Option<CompanyTermHours>,
    assignment: Option<Assignment>,
    visit_span: i64,
) -> bool {
    let mine = students_of(students, company_id);
    &&& c.company_id == company_id
    &&& c.student_count == mine.len()
    &&& c.student_names@.len() == mine.len()
    &&& forall|k: int| 0 <= k < mine.len() ==> (#[trigger] c.student_names@[k])@ == full_name(mine[k].first_name@, mine[k].last_name@)
    &&& increasing_texts(c.branches@)
    &&& forall|b: Seq<char>| has_text(c.branches@, b) <==> has_branch(mine, b)
    &&& increasing_days(c.workplace_days@)
    &&& forall|d: i64| c.workplace_days@.contains(d) <==> visitable_day(mine, rows, d)
    &&& c.awarded_hours == (match hours {
        Some(h) => h.awarded_hours,
        None => 0,
    })
    &&& c.is_honorary == (match hours {
        Some(h) => h.is_honorary == 1,
        None => false,
    })
    &&& c.hours_missing == hours is None
    &&& match assignment {
        Some(a) => {
            &&& c.assigned_teacher_id == Some(a.teacher_id)
            &&& c.visit_day == Some(a.visit_day)
            &&& c.visit_hour == Some(a.visit_hour)
            &&& c.visit_end_hour == Some((a.visit_hour + visit_span - 1) as i64)
            &&& c.is_forced == (a.is_forced == 1)
            &&& c.force_reason == a.force_reason
        },
        None => {
            &&& c.assigned_teacher_id is None
            &&& c.visit_day is None
            &&& c.visit_hour is None
            &&& c.visit_end_hour is None
            &&& !c.is_forced
            &&& c.force_reason is None
        },
    }
}

fn copy_option(v: &Option<String>) -> (c: Option<String>)
    ensures
        c == *v,
{
    match v {
        Some(s) => Some(s.clone()),
        None => None,
    }
}

/// Builds the card of a company. `students` are the students of the term,
/// `rows` the class-day rows, `hours` the company's award if any and
/// `assignment` its placement if any.
pub fn board_company(
    company_id: i64,
    company_name: &String,
    address_text: &String,
    district: &String,
    students: &Vec<Student>,
    rows: &Vec<ClassWorkplaceDay>,
    hours: Option<&CompanyTermHours>,
    assignment: Option<&Assignment>,
    visit_span: i64,
) -> (c: BoardCompany)
    requires
        students@.len() <= i64::MAX,
        assignment matches Some(a) ==> fits_i64(a.visit_hour + visit_span) && fits_i64(a.visit_hour + visit_span - 1),
    ensures
        c.company_name@ == company_name@,
        c.address_text@ == address_text@,
        c.district@ == district@,
        card_ok(
            c,
            company_id,
            students@,
            rows@,
            match hours {
                Some(h) => Some(*h),
                None => None,
            },
            match assignment {
                Some(a) => Some(*a),
                None => None,
            },
            visit_span,
        ),
{
    // The company's students, their names, branches and workplace days.
    let mut count: i64 = 0;
    let mut names: Vec<String> = Vec::new();
    let mut branches: Vec<String> = Vec::new();
    let mut days: Vec<i64> = Vec::new();
    let mut i: usize = 0;
    while i < students.len()
        invariant
            i <= students@.len() <= i64::MAX,
            count == students_of(students@.take(i as int), company_id).len(),
            count <= i,
            names@.len() == count,
            forall|k: int| 0 <= k < count ==> (#[trigger] names@[k])@ == full_name(
                students_of(students@.take(i as int), company_id)[k].first_name@,
                students_of(students@.take(i as int), company_id)[k].last_name@,
            ),
            increasing_texts(branches@),
            forall|b: Seq<char>| has_text(branches@, b) <==> has_branch(students_of(students@.take(i as int), company_id), b),
            increasing_days(days@),
            forall|d: i64| days@.contains(d) <==> visitable_day(students_of(students@.take(i as int), company_id), rows@, d),
        decreases students@.len() - i,
    {
        let s = &students[i];
        let ghost before = students_of(students@.take(i as int), company_id);
        proof {
            let t = students@.take(i + 1);
            assert(t.drop_last() =~= students@.take(i as int));
            assert(t.last() == students@[i as int]);
        }
        if s.company_id == Some(company_id) {
            let ghost after = before.push(*s);
            assert(students_of(students@.take(i + 1), company_id) == after);
            let a = concat(s.first_name.as_str(), " ");
            let name = concat(a.as_str(), s.last_name.as_str());
            names.push(name);
            count = count + 1;
            let ghost old_branches = branches@;
            insert_text(&mut branches, s.branch.clone());
            proof {
                assert forall|b: Seq<char>| has_text(branches@, b) <==> has_branch(after, b) by {
                    if has_branch(after, b) {
                        let k = choose|k: int| 0 <= k < after.len() && #[trigger] after[k].branch@ == b;
                        if k < before.len() {
                            assert(before[k] == after[k]);
                            assert(has_branch(before, b));
                        }
                    }
                    if has_branch(before, b) {
                        let k = choose|k: int| 0 <= k < before.len() && #[trigger] before[k].branch@ == b;
                        assert(after[k] == before[k]);
                        assert(has_branch(after, b));
                    }
                    if b == s.branch@ {
                        assert(after[before.len() as int].branch@ == b);
                    }
                }
            }
            let mut j: usize = 0;
            while j < rows.len()
                invariant
                    j <= rows@.len(),
                    increasing_days(days@),
                    after == before.push(*s),
                    forall|d: i64| days@.contains(d) <==> (visitable_day(before, rows@, d) || exists|q: int|
                        0 <= q < j && #[trigger] rows@[q].grade@ == s.grade@ && rows@[q].day_of_week == d),
                decreases rows@.len() - j,
            {
                if crate::text::str_eq(rows[j].grade.as_str(), s.grade.as_str()) {
                    let ghost old_days = days@;
                    insert_day(&mut days, rows[j].day_of_week);
                    proof {
                        assert forall|d: i64| days@.contains(d) <==> (visitable_day(before, rows@, d) || exists|q: int|
                            0 <= q < j + 1 && #[trigger] rows@[q].grade@ == s.grade@ && rows@[q].day_of_week == d) by {
                            if d == rows@[j as int].day_of_week {
                                assert(rows@[j as int].grade@ == s.grade@);
                            }
                            if exists|q: int| 0 <= q < j + 1 && #[trigger] rows@[q].grade@ == s.grade@ && rows@[q].day_of_week == d {
                                let q = choose|q: int| 0 <= q < j + 1 && #[trigger] rows@[q].grade@ == s.grade@ && rows@[q].day_of_week == d;
                                if q < j {
                                    assert(old_days.contains(d));
                                }
                            }
                        }
                    }
                } else {
                    proof {
                        assert forall|d: i64| days@.contains(d) <==> (visitable_day(before, rows@, d) || exists|q: int|
                            0 <= q < j + 1 && #[trigger] rows@[q].grade@ == s.grade@ && rows@[q].day_of_week == d) by {
                            if exists|q: int| 0 <= q < j + 1 && #[trigger] rows@[q].grade@ == s.grade@ && rows@[q].day_of_week == d {
                                let q = choose|q: int| 0 <= q < j + 1 && #[trigger] rows@[q].grade@ == s.grade@ && rows@[q].day_of_week == d;
                                assert(q < j);
                            }
                        }
                    }
                }
                j += 1;
            }
            proof {
                assert forall|d: i64| days@.contains(d) <==> visitable_day(after, rows@, d) by {
                    if visitable_day(after, rows@, d) {
                        let (p, q) = choose|p: int, q: int|
                            0 <= p < after.len() && 0 <= q < rows@.len() && #[trigger] rows@[q].grade@ == #[trigger] after[p].grade@
                                && rows@[q].day_of_week == d;
                        if p < before.len() {
                            assert(after[p] == before[p]);
                            assert(visitable_day(before, rows@, d));
                        } else {
                            assert(after[p] == *s);
                            assert(rows@[q].grade@ == s.grade@ && rows@[q].day_of_week == d);
                        }
                    }
                    if visitable_day(before, rows@, d) {
                        let (p, q) = choose|p: int, q: int|
                            0 <= p < before.len() && 0 <= q < rows@.len() && #[trigger] rows@[q].grade@ == #[trigger] before[p].grade@
                                && rows@[q].day_of_week == d;
                        assert(after[p] == before[p]);
                        assert(rows@[q].grade@ == after[p].grade@);
                    }
                    if exists|q: int| 0 <= q < rows@.len() && #[trigger] rows@[q].grade@ == s.grade@ && rows@[q].day_of_week == d {
                        let q = choose|q: int| 0 <= q < rows@.len() && #[trigger] rows@[q].grade@ == s.grade@ && rows@[q].day_of_week == d;
                        assert(after[before.len() as int] == *s);
                        assert(rows@[q].grade@ == after[before.len() as int].grade@);
                    }
                }
                assert forall|k: int| 0 <= k < count implies (#[trigger] names@[k])@ == full_name(after[k].first_name@, after[k].last_name@) by {
                    if k < before.len() {
                        assert(after[k] == before[k]);
                    }
                }
            }
        } else {
            assert(students_of(students@.take(i + 1), company_id) == before);
        }
        i += 1;
    }
    assert(students@.take(students@.len() as int) =~= students@);

    let (awarded_hours, is_honorary, hours_missing) = match hours {
        Some(h) => (h.awarded_hours, h.is_honorary == 1, false),
        None => (0, false, true),
    };
    let (assigned_teacher_id, visit_day, visit_hour, visit_end_hour, is_forced, force_reason) = match assignment {
        Some(a) => (
            Some(a.teacher_id),
            Some(a.visit_day),
            Some(a.visit_hour),
            Some(a.visit_hour + visit_span - 1),
            a.is_forced == 1,
            copy_option(&a.force_reason),
        ),
        None => (None, None, None, None, false, None),
    };
    BoardCompany {
        company_id,
        company_name: company_name.clone(),
        address_text: address_text.clone(),
        district: district.clone(),
        student_count: count,
        student_names: names,
        branches,
        awarded_hours,
        is_honorary,
        hours_missing,
        workplace_days: days,
        assigned_teacher_id,
        visit_day,
        visit_hour,
        visit_end_hour,
        is_forced,
        force_reason,
    }
}

fn copy_strings(v: &Vec<String>) -> (c: Vec<String>)
    ensures
        c@ == v@,
{
    let mut out: Vec<String> = Vec::new();
    let mut i: usize = 0;
    while i < v.len()
        invariant
            i <= v@.len(),
            out@ == v@.take(i as int),
        decreases v@.len() - i,
    {
        out.push(v[i].clone());
        i += 1;
        assert(out@ =~= v@.take(i as int));
    }
    assert(v@.take(v@.len() as int) =~= v@);
    out
}

fn copy_days(v: &Vec<i64>) -> (c: Vec<i64>)
    ensures
        c@ == v@,
{
    let mut out: Vec<i64> = Vec::new();
    let mut i: usize = 0;
    while i < v.len()
        invariant
            i <= v@.len(),
            out@ == v@.take(i as int),
        decreases v@.len() - i,
    {
        out.push(v[i]);
        i += 1;
        assert(out@ =~= v@.take(i as int));
    }
    assert(v@.take(v@.len() as int) =~= v@);
    out
}

/// Two cards show the same thing.
pub open spec fn same_card(a: BoardCompany, b: BoardCompany) -> bool {
    &&& a.company_id == b.company_id
    &&& a.company_name == b.company_name
    &&& a.address_text == b.address_text
    &&& a.district == b.district
    &&& a.student_count == b.student_count
    &&& a.student_names@ == b.student_names@
    &&& a.branches@ == b.branches@
    &&& a.awarded_hours == b.awarded_hours
    &&& a.is_honorary == b.is_honorary
    &&& a.hours_missing == b.hours_missing
    &&& a.workplace_days@ == b.workplace_days@
    &&& a.assigned_teacher_id == b.assigned_teacher_id
    &&& a.visit_day == b.visit_day
    &&& a.visit_hour == b.visit_hour
    &&& a.visit_end_hour == b.visit_end_hour
    &&& a.is_forced == b.is_forced
    &&& a.force_reason == b.force_reason
}

fn copy_card(c: &BoardCompany) -> (r: BoardCompany)
    ensures
        same_card(r, *c),
{
    BoardCompany {
        company_id: c.company_id,
        company_name: c.company_name.clone(),
        address_text: c.address_text.clone(),
        district: c.district.clone(),
        student_count: c.student_count,
        student_names: copy_strings(&c.student_names),
        branches: copy_strings(&c.branches),
        awarded_hours: c.awarded_hours,
        is_honorary: c.is_honorary,
        hours_missing: c.hours_missing,
        workplace_days: copy_days(&c.workplace_days),
        assigned_teacher_id: c.assigned_teacher_id,
        visit_day: c.visit_day,
        visit_hour: c.visit_hour,
        visit_end_hour: c.visit_end_hour,
        is_forced: c.is_forced,
        force_reason: copy_option(&c.force_reason),
    }
}

/// The sort keys of cards: their company name.
pub open spec fn card_keys(cards: Seq<BoardCompany>) -> Seq<SortKey> {
    Seq::new(cards.len(), |i: int| (cards[i].company_name@, Seq::<char>::empty()))
}

/// The cards sorted stably by company name.
pub fn sort_cards_by_name(cards: &Vec<BoardCompany>) -> (r: Vec<BoardCompany>)
    ensures
        exists|p: Seq<usize>|
            #![trigger is_permutation(p, cards@.len() as int)]
            {
                &&& is_permutation(p, cards@.len() as int)
                &&& sorts_stably(p, card_keys(cards@))
                &&& r@.len() == cards@.len()
                &&& forall|k: int| 0 <= k < r@.len() ==> same_card(r@[k], cards@[#[trigger] p[k] as int])
            },
{
    let mut keys: Vec<(Vec<char>, Vec<char>)> = Vec::new();
    let mut i: usize = 0;
    while i < cards.len()
        invariant
            i <= cards@.len(),
            keys@.len() == i,
            forall|k: int| 0 <= k < i ==> #[trigger] key_at(keys@, k) == card_keys(cards@)[k],
        decreases cards@.len() - i,
    {
        let ghost before = keys@;
        keys.push((chars_of(cards[i].company_name.as_str()), Vec::new()));
        proof {
            assert forall|k: int| 0 <= k < i + 1 implies #[trigger] key_at(keys@, k) == card_keys(cards@)[k] by {
                if k < i {
                    assert(keys@[k] == before[k]);
                    assert(key_at(before, k) == key_at(keys@, k));
                } else {
                    assert(keys@[k].1@ =~= Seq::<char>::empty());
                }
            }
        }
        i += 1;
    }
    let p = stable_order(&keys);
    proof {
        assert(keys_view(keys@) =~= card_keys(cards@)) by {
            assert forall|k: int| 0 <= k < keys@.len() implies keys_view(keys@)[k] == card_keys(cards@)[k] by {
                assert(key_at(keys@, k) == card_keys(cards@)[k]);
            }
        }
    }
    let mut out: Vec<BoardCompany> = Vec::new();
    let mut m: usize = 0;
    while m < p.len()
        invariant
            m <= p@.len(),
            is_permutation(p@, cards@.len() as int),
            out@.len() == m,
            forall|q: int| 0 <= q < m ==> same_card(#[trigger] out@[q], cards@[p@[q] as int]),
        decreases p@.len() - m,
    {
        out.push(copy_card(&cards[p[m]]));
        m += 1;
    }
    out
}

// ---------------------------------------------------------------------------
// Counters of the board
// ---------------------------------------------------------------------------

/// The top counters of the assignment board.
#[derive(Debug, Clone, Copy, PartialEq, Eq, Structural)]
pub struct BoardCounters {
    pub remaining_hours: i64,
    pub assigned_company_count: i64,
    pub total_company_count: i64,
    pub honorary_count: i64,
    /// Companies without an award.
    pub missing_hours_count: i64,
    /// Σ awarded hours of all cards.
    pub total_awarded_hours: i64,
}

pub open spec fn assigned_cards(cards: Seq<BoardCompany>) -> int
    decreases cards.len(),
{
    if cards.len() == 0 {
        0
    } else {
        assigned_cards(cards.drop_last()) + if cards.last().assigned_teacher_id is Some {
            1int
        } else {
            0int
        }
    }
}

/// A card whose company has a coordinator.
pub open spec fn with_teacher() -> spec_fn(BoardCompany) -> bool {
    |c: BoardCompany| c.assigned_teacher_id is Some
}

/// The assigned-company counter is the number of cards with a coordinator,
/// whatever their award: a card with a teacher counts once, with or without
/// hours, and a card without one never counts.
pub proof fn lemma_assigned_count_is_cards_with_teacher(cards: Seq<BoardCompany>)
    ensures
        assigned_cards(cards) == cards.filter(with_teacher()).len(),
    decreases cards.len(),
{
    reveal(Seq::filter);
    if cards.len() > 0 {
        lemma_assigned_count_is_cards_with_teacher(cards.drop_last());
        cards.drop_last().lemma_filter_len_push(with_teacher(), cards.last());
        assert(cards.drop_last().push(cards.last()) =~= cards);
    }
}

pub open spec fn honorary_cards(cards: Seq<BoardCompany>) -> int
    decreases cards.len(),
{
    if cards.len() == 0 {
        0
    } else {
        honorary_cards(cards.drop_last()) + if cards.last().is_honorary {
            1int
        } else {
            0int
        }
    }
}

pub open spec fn missing_hours_cards(cards: Seq<BoardCompany>) -> int
    decreases cards.len(),
{
    if cards.len() == 0 {
        0
    } else {
        missing_hours_cards(cards.drop_last()) + if cards.last().hours_missing {
            1int
        } else {
            0int
        }
    }
}

pub open spec fn awarded_cards(cards: Seq<BoardCompany>) -> int
    decreases cards.len(),
{
    if cards.len() == 0 {
        0
    } else {
        awarded_cards(cards.drop_last()) + cards.last().awarded_hours
    }
}

proof fn lemma_card_counts_bounded(cards: Seq<BoardCompany>)
    ensures
        0 <= assigned_cards(cards) <= cards.len(),
        0 <= honorary_cards(cards) <= cards.len(),
        0 <= missing_hours_cards(cards) <= cards.len(),
    decreases cards.len(),
{
    if cards.len() > 0 {
        lemma_card_counts_bounded(cards.drop_last());
    }
}

/// Every partial sum of awarded hours of the cards fits in an `i64`.
pub open spec fn card_sums_fit(cards: Seq<BoardCompany>) -> bool {
    forall|k: int| 0 <= k <= cards.len() ==> fits_i64(#[trigger] awarded_cards(cards.take(k)))
}

/// The counters of the board over its cards, with the pool and the total
/// hours of the assigned companies.
pub fn board_counters(cards: &Vec<BoardCompany>, pool_hours: i64, assigned_hours: i64) -> (c: BoardCounters)
    requires
        cards@.len() <= i64::MAX,
        card_sums_fit(cards@),
        fits_i64(pool_hours - assigned_hours),
    ensures
        c.remaining_hours == pool_hours - assigned_hours,
        c.assigned_company_count == assigned_cards(cards@),
        c.total_company_count == cards@.len(),
        c.honorary_count == honorary_cards(cards@),
        c.missing_hours_count == missing_hours_cards(cards@),
        c.total_awarded_hours == awarded_cards(cards@),
{
    let mut assigned: i64 = 0;
    let mut honorary: i64 = 0;
    let mut missing: i64 = 0;
    let mut awarded: i64 = 0;
    let mut i: usize = 0;
    while i < cards.len()
        invariant
            i <= cards@.len() <= i64::MAX,
            card_sums_fit(cards@),
            assigned == assigned_cards(cards@.take(i as int)),
            honorary == honorary_cards(cards@.take(i as int)),
            missing == missing_hours_cards(cards@.take(i as int)),
            awarded == awarded_cards(cards@.take(i as int)),
        decreases cards@.len() - i,
    {
        proof {
            let t = cards@.take(i + 1);
            assert(t.drop_last() =~= cards@.take(i as int));
            assert(t.last() == cards@[i as int]);
            lemma_card_counts_bounded(cards@.take(i as int));
            assert(fits_i64(awarded_cards(cards@.take(i + 1))));
        }
        let c = &cards[i];
        if c.assigned_teacher_id.is_some() {
            assigned = assigned + 1;
        }
        if c.is_honorary {
            honorary = honorary + 1;
        }
        if c.hours_missing {
            missing = missing + 1;
        }
        awarded = awarded + c.awarded_hours;
        i += 1;
    }
    assert(cards@.take(cards@.len() as int) =~= cards@);
    BoardCounters {
        remaining_hours: pool_hours - assigned_hours,
        assigned_company_count: assigned,
        total_company_count: cards.len() as i64,
        honorary_count: honorary,
        missing_hours_count: missing,
        total_awarded_hours: awarded,
    }
}

// ---------------------------------------------------------------------------
// Inputs of a placement proposal
// ---------------------------------------------------------------------------

/// The placed visit of a card, when its teacher, day and block are all known.
pub open spec fn placed_block(c: BoardCompany) -> Option<(i64, i64, i64, i64, i64)> {
    match (c.assigned_teacher_id, c.visit_day, c.visit_hour, c.visit_end_hour) {
        (Some(t), Some(d), Some(s), Some(e)) => Some((t, d, s, e, c.company_id)),
        _ => None,
    }
}

/// The placements of the cards that have one, in order: the input of
/// `occupied_cells_by_teacher`.
pub open spec fn placements_of(cards: Seq<BoardCompany>) -> Seq<(i64, i64, i64, i64, i64)>
    decreases cards.len(),
{
    if cards.len() == 0 {
        Seq::empty()
    } else {
        let rest = placements_of(cards.drop_last());
        match placed_block(cards.last()) {
            Some(p) => rest.push(p),
            None => rest,
        }
    }
}

pub fn placements(cards: &Vec<BoardCompany>) -> (r: Vec<(i64, i64, i64, i64, i64)>)
    ensures
        r@ == placements_of(cards@),
{
    let mut out: Vec<(i64, i64, i64, i64, i64)> = Vec::new();
    let mut i: usize = 0;
    while i < cards.len()
        invariant
            i <= cards@.len(),
            out@ == placements_of(cards@.take(i as int)),
        decreases cards@.len() - i,
    {
        proof {
            let t = cards@.take(i + 1);
            assert(t.drop_last() =~= cards@.take(i as int));
            assert(t.last() == cards@[i as int]);
        }
        let c = &cards[i];
        match (c.assigned_teacher_id, c.visit_day, c.visit_hour, c.visit_end_hour) {
            (Some(t), Some(d), Some(s), Some(e)) => out.push((t, d, s, e, c.company_id)),
            _ => {},
        }
        i += 1;
    }
    assert(cards@.take(cards@.len() as int) =~= cards@);
    out
}

/// The cells a teacher's placed visits already use, card by card, each
/// block hour by hour.
pub open spec fn used_slots_of(cards: Seq<BoardCompany>, teacher: i64) -> Seq<Slot>
    decreases cards.len(),
{
    if cards.len() == 0 {
        Seq::empty()
    } else {
        let rest = used_slots_of(cards.drop_last(), teacher);
        let c = cards.last();
        match (c.visit_day, c.visit_hour, c.visit_end_hour) {
            (Some(d), Some(s), Some(e)) => if c.assigned_teacher_id == Some(teacher) {
                rest + block_slots(d, s as int, e as int)
            } else {
                rest
            },
            _ => rest,
        }
    }
}

/// The slots of `day` from hour `start` to `end`, inclusive.
pub open spec fn block_slots(day: i64, start: int, end: int) -> Seq<Slot> {
    if end < start {
        Seq::empty()
    } else {
        Seq::new((end - start + 1) as nat, |k: int| Slot { day, hour: (start + k) as i64 })
    }
}

/// The cells used by the placed visits of `teacher`.
pub fn used_slots(cards: &Vec<BoardCompany>, teacher: i64) -> (r: Vec<Slot>)
    ensures
        r@ == used_slots_of(cards@, teacher),
{
    let mut out: Vec<Slot> = Vec::new();
    let mut i: usize = 0;
    while i < cards.len()
        invariant
            i <= cards@.len(),
            out@ == used_slots_of(cards@.take(i as int), teacher),
        decreases cards@.len() - i,
    {
        proof {
            let t = cards@.take(i + 1);
            assert(t.drop_last() =~= cards@.take(i as int));
            assert(t.last() == cards@[i as int]);
        }
        let c = &cards[i];
        if c.assigned_teacher_id == Some(teacher) {
            match (c.visit_day, c.visit_hour, c.visit_end_hour) {
                (Some(d), Some(s), Some(e)) => {
                    let ghost before = out@;
                    if s <= e {
                        let mut h = s;
                        loop
                            invariant_except_break
                                s <= h <= e,
                                out@ == before + block_slots(d, s as int, h - 1),
                            ensures
                                out@ == before + block_slots(d, s as int, e as int),
                            decreases e - h,
                        {
                            out.push(Slot::new(d, h));
                            assert(block_slots(d, s as int, h as int) =~= block_slots(d, s as int, h - 1).push(Slot { day: d, hour: h }));
                            if h == e {
                                break;
                            }
                            h = h + 1;
                        }
                    } else {
                        assert(out@ =~= before + block_slots(d, s as int, e as int));
                    }
                },
                _ => {},
            }
        }
        i += 1;
    }
    assert(cards@.take(cards@.len() as int) =~= cards@);
    out
}

/// The free slots a list of cell keys reads as, keys that do not read
/// skipped.
pub open spec fn slots_of_keys(keys: Seq<String>) -> Seq<Slot>
    decreases keys.len(),
{
    if keys.len() == 0 {
        Seq::empty()
    } else {
        let rest = slots_of_keys(keys.drop_last());
        match slot_of_key(keys.last()@) {
            Some(s) => rest.push(s),
            None => rest,
        }
    }
}

pub fn parse_slot_keys(keys: &Vec<String>) -> (r: Vec<Slot>)
    ensures
        r@ == slots_of_keys(keys@),
{
    let mut out: Vec<Slot> = Vec::new();
    let mut i: usize = 0;
    while i < keys.len()
        invariant
            i <= keys@.len(),
            out@ == slots_of_keys(keys@.take(i as int)),
        decreases keys@.len() - i,
    {
        proof {
            let t = keys@.take(i + 1);
            assert(t.drop_last() =~= keys@.take(i as int));
            assert(t.last() == keys@[i as int]);
        }
        match parse_slot_key(keys[i].as_str()) {
            Some(s) => out.push(s),
            None => {},
        }
        i += 1;
    }
    assert(keys@.take(keys@.len() as int) =~= keys@);
    out
}

} // verus!

verus! {

// ---------------------------------------------------------------------------
// The assembled assignment board
// ---------------------------------------------------------------------------

/// Two board teachers show the same thing.
pub open spec fn same_teacher(a: BoardTeacher, b: BoardTeacher) -> bool {
    &&& a.teacher_id == b.teacher_id
    &&& a.teacher_name@ == b.teacher_name@
    &&& a.branches@ == b.branches@
    &&& a.capacity == b.capacity
    &&& a.assigned_hours == b.assigned_hours
    &&& a.company_count == b.company_count
    &&& a.free_slots@ == b.free_slots@
    &&& a.hours_per_day@ == b.hours_per_day@
    &&& a.days_over_cap@ == b.days_over_cap@
    &&& a.is_over_capacity == b.is_over_capacity
    &&& a.occupied_by@ == b.occupied_by@
    &&& a.occupied_by.wf() == b.occupied_by.wf()
}

fn copy_pairs(v: &Vec<(i64, i64)>) -> (c: Vec<(i64, i64)>)
    ensures
        c@ == v@,
{
    let mut out: Vec<(i64, i64)> = Vec::new();
    let mut i: usize = 0;
    while i < v.len()
        invariant
            i <= v@.len(),
            out@ == v@.take(i as int),
        decreases v@.len() - i,
    {
        out.push(v[i]);
        i += 1;
        assert(out@ =~= v@.take(i as int));
    }
    assert(v@.take(v@.len() as int) =~= v@);
    out
}

fn copy_teacher(t: &BoardTeacher) -> (r: BoardTeacher)
    ensures
        same_teacher(r, *t),
{
    BoardTeacher {
        teacher_id: t.teacher_id,
        teacher_name: t.teacher_name.clone(),
        branches: copy_strings(&t.branches),
        capacity: t.capacity,
        assigned_hours: t.assigned_hours,
        company_count: t.company_count,
        free_slots: copy_strings(&t.free_slots),
        hours_per_day: copy_pairs(&t.hours_per_day),
        days_over_cap: copy_days(&t.days_over_cap),
        is_over_capacity: t.is_over_capacity,
        occupied_by: t.occupied_by.copy(),
    }
}

/// The sort keys of board teachers: their name.
pub open spec fn teacher_keys(teachers: Seq<BoardTeacher>) -> Seq<SortKey> {
    Seq::new(teachers.len(), |i: int| (teachers[i].teacher_name@, Seq::<char>::empty()))
}

/// The teachers sorted stably by name.
pub fn sort_teachers_by_name(teachers: &Vec<BoardTeacher>) -> (r: Vec<BoardTeacher>)
    ensures
        exists|p: Seq<usize>|
            #![trigger is_permutation(p, teachers@.len() as int)]
            {
                &&& is_permutation(p, teachers@.len() as int)
                &&& sorts_stably(p, teacher_keys(teachers@))
                &&& r@.len() == teachers@.len()
                &&& forall|k: int| 0 <= k < r@.len() ==> same_teacher(r@[k], teachers@[#[trigger] p[k] as int])
            },
{
    let mut keys: Vec<(Vec<char>, Vec<char>)> = Vec::new();
    let mut i: usize = 0;
    while i < teachers.len()
        invariant
            i <= teachers@.len(),
            keys@.len() == i,
            forall|k: int| 0 <= k < i ==> #[trigger] key_at(keys@, k) == teacher_keys(teachers@)[k],
        decreases teachers@.len() - i,
    {
        let ghost before = keys@;
        keys.push((chars_of(teachers[i].teacher_name.as_str()), Vec::new()));
        proof {
            assert forall|k: int| 0 <= k < i + 1 implies #[trigger] key_at(keys@, k) == teacher_keys(teachers@)[k] by {
                if k < i {
                    assert(keys@[k] == before[k]);
                    assert(key_at(before, k) == key_at(keys@, k));
                } else {
                    assert(keys@[k].1@ =~= Seq::<char>::empty());
                }
            }
        }
        i += 1;
    }
    let p = stable_order(&keys);
    proof {
        assert(keys_view(keys@) =~= teacher_keys(teachers@)) by {
            assert forall|k: int| 0 <= k < keys@.len() implies keys_view(keys@)[k] == teacher_keys(teachers@)[k] by {
                assert(key_at(keys@, k) == teacher_keys(teachers@)[k]);
            }
        }
    }
    let mut out: Vec<BoardTeacher> = Vec::new();
    let mut m: usize = 0;
    while m < p.len()
        invariant
            m <= p@.len(),
            is_permutation(p@, teachers@.len() as int),
            out@.len() == m,
            forall|q: int| 0 <= q < m ==> same_teacher(#[trigger] out@[q], teachers@[p@[q] as int]),
        decreases p@.len() - m,
    {
        out.push(copy_teacher(&teachers[p[m]]));
        m += 1;
    }
    out
}

/// The assignment board of a term.
#[derive(Debug, Clone)]
pub struct AssignmentBoard {
    pub term: String,
    /// Sorted by name.
    pub teachers: Vec<BoardTeacher>,
    /// Sorted by company name.
    pub companies: Vec<BoardCompany>,
    /// The hour range of the grid.
    pub day_start_hour: i64,
    pub day_end_hour: i64,
    pub pool_hours: i64,
    pub assigned_hours: i64,
    pub remaining_hours: i64,
    pub assigned_company_count: i64,
    pub total_company_count: i64,
    pub honorary_count: i64,
    pub warnings: Vec<String>,
}

/// Puts the board together from its company cards and teachers: both sorted
/// by name, the grid's hours from the `max_daily_lessons` setting, the top
/// counters, and the board's own warnings (no teacher, no free hours, no
/// class days, companies without an award).
pub fn assignment_board(
    term: String,
    settings: &Settings,
    cards: &Vec<BoardCompany>,
    teachers: &Vec<BoardTeacher>,
    pool_hours: i64,
    assigned_hours: i64,
    class_days_empty: bool,
) -> (b: AssignmentBoard)
    requires
        cards@.len() <= i64::MAX,
        card_sums_fit(cards@),
        fits_i64(pool_hours - assigned_hours),
    ensures
        b.term == term,
        (b.day_start_hour, b.day_end_hour) == lesson_bounds(
            hour_setting(settings.value("max_daily_lessons"@), DEFAULT_MAX_DAILY_LESSONS),
        ),
        exists|p: Seq<usize>|
            #![trigger is_permutation(p, cards@.len() as int)]
            {
                &&& is_permutation(p, cards@.len() as int)
                &&& sorts_stably(p, card_keys(cards@))
                &&& b.companies@.len() == cards@.len()
                &&& forall|k: int| 0 <= k < b.companies@.len() ==> same_card(b.companies@[k], cards@[#[trigger] p[k] as int])
            },
        exists|p: Seq<usize>|
            #![trigger is_permutation(p, teachers@.len() as int)]
            {
                &&& is_permutation(p, teachers@.len() as int)
                &&& sorts_stably(p, teacher_keys(teachers@))
                &&& b.teachers@.len() == teachers@.len()
                &&& forall|k: int| 0 <= k < b.teachers@.len() ==> same_teacher(b.teachers@[k], teachers@[#[trigger] p[k] as int])
            },
        b.pool_hours == pool_hours,
        b.assigned_hours == assigned_hours,
        b.remaining_hours == pool_hours - assigned_hours,
        b.assigned_company_count == assigned_cards(cards@),
        b.total_company_count == cards@.len(),
        b.honorary_count == honorary_cards(cards@),
        texts_of(b.warnings@) == board_warning_texts(
            b.teachers@.len() as int,
            forall|i: int| 0 <= i < b.teachers@.len() ==> (#[trigger] b.teachers@[i]).free_slots@.len() == 0,
            class_days_empty,
            missing_hours_cards(cards@),
        ),
{
    let (start, end) = lesson_hour_bounds(settings);
    let counters = board_counters(cards, pool_hours, assigned_hours);
    let sorted_cards = sort_cards_by_name(cards);
    let sorted_teachers = sort_teachers_by_name(teachers);
    proof {
        lemma_card_counts_bounded(cards@);
    }
    let warnings = board_warnings(&sorted_teachers, class_days_empty, counters.missing_hours_count as u64);
    AssignmentBoard {
        term,
        teachers: sorted_teachers,
        companies: sorted_cards,
        day_start_hour: start,
        day_end_hour: end,
        pool_hours,
        assigned_hours,
        remaining_hours: counters.remaining_hours,
        assigned_company_count: counters.assigned_company_count,
        total_company_count: counters.total_company_count,
        honorary_count: counters.honorary_count,
        warnings,
    }
}

} // verus!
