use vstd::prelude::*;
use crate::teaching_load::fits_i64;

verus! {

/// The counters and hour balances of the overview screen.
#[derive(Debug, Clone)]
pub struct DashboardStats {
    pub term: String,
    /// Active companies (companies are not tied to a term).
    pub company_count: i64,
    /// Students of the active term.
    pub student_count: i64,
    pub teacher_count: i64,
    pub active_teacher_count: i64,
    /// Σ coordination capacity of the active teachers.
    pub total_capacity_hours: i64,
    /// Hours awarded to assigned companies.
    pub assigned_hours: i64,
    /// `total_capacity_hours - assigned_hours`; negative when overrun.
    pub remaining_hours: i64,
    /// Active teachers whose capacity is exactly used up.
    pub teachers_at_capacity: i64,
    /// Active teachers above their capacity.
    pub teachers_over_capacity: i64,
    /// The coordination teaching-load pool.
    pub pool_hours: i64,
    /// Hours awarded to companies (awarded, not assigned).
    pub awarded_hours: i64,
    /// `pool_hours - awarded_hours`.
    pub remaining_pool_hours: i64,
    pub companies_without_location: i64,
    pub students_without_company: i64,
    pub companies_without_students: i64,
    /// Companies with students but without a coordinator.
    pub companies_without_assignment: i64,
}

/// What the overview reads of a teacher: its id, whether it is active and
/// its coordination capacity on the day of reading.
#[derive(Debug, Clone, Copy, PartialEq, Eq, Structural)]
pub struct TeacherBalance {
    pub id: i64,
    pub is_active: bool,
    pub capacity: i64,
}

/// What the overview reads of a company: its id and whether both of its
/// coordinates are set.
#[derive(Debug, Clone, Copy, PartialEq, Eq, Structural)]
pub struct CompanyPresence {
    pub id: i64,
    pub has_location: bool,
}

/// The hours awarded to a teacher: the first entry for it, 0 without one.
pub open spec fn awarded_for(awarded: Seq<(i64, i64)>, id: i64) -> i64 {
    if exists|i: int| 0 <= i < awarded.len() && #[trigger] awarded[i].0 == id {
        awarded[choose|i: int|
            0 <= i < awarded.len() && #[trigger] awarded[i].0 == id && forall|j: int|
                0 <= j < i ==> #[trigger] awarded[j].0 != id].1
    } else {
        0
    }
}

pub open spec fn capacity_total(ts: Seq<TeacherBalance>) -> int
    decreases ts.len(),
{
    if ts.len() == 0 {
        0
    } else {
        capacity_total(ts.drop_last()) + if ts.last().is_active {
            ts.last().capacity as int
        } else {
            0int
        }
    }
}

pub open spec fn active_count(ts: Seq<TeacherBalance>) -> int
    decreases ts.len(),
{
    if ts.len() == 0 {
        0
    } else {
        active_count(ts.drop_last()) + if ts.last().is_active {
            1int
        } else {
            0int
        }
    }
}

pub open spec fn over_count(ts: Seq<TeacherBalance>, awarded: Seq<(i64, i64)>) -> int
    decreases ts.len(),
{
    if ts.len() == 0 {
        0
    } else {
        let t = ts.last();
        over_count(ts.drop_last(), awarded) + if t.is_active && awarded_for(awarded, t.id) > t.capacity {
            1int
        } else {
            0int
        }
    }
}

/// An active teacher whose awarded hours are above its capacity.
pub open spec fn over_its_capacity(awarded: Seq<(i64, i64)>) -> spec_fn(TeacherBalance) -> bool {
    |t: TeacherBalance| t.is_active && awarded_for(awarded, t.id) > t.capacity
}

/// The over-capacity counter is the number of active teachers whose awarded
/// hours are strictly above their capacity, for every capacity, zero
/// included; inactive teachers never count.
pub proof fn lemma_over_count_is_teachers_above_capacity(ts: Seq<TeacherBalance>, awarded: Seq<(i64, i64)>)
    ensures
        over_count(ts, awarded) == ts.filter(over_its_capacity(awarded)).len(),
    decreases ts.len(),
{
    reveal(Seq::filter);
    if ts.len() > 0 {
        lemma_over_count_is_teachers_above_capacity(ts.drop_last(), awarded);
        ts.drop_last().lemma_filter_len_push(over_its_capacity(awarded), ts.last());
        assert(ts.drop_last().push(ts.last()) =~= ts);
    }
}

/// The hours awarded to a teacher are those of the first entry with its id.
pub proof fn lemma_awarded_for_first_entry(awarded: Seq<(i64, i64)>, id: i64, i: int)
    requires
        0 <= i < awarded.len(),
        awarded[i].0 == id,
        forall|j: int| 0 <= j < i ==> awarded[j].0 != id,
    ensures
        awarded_for(awarded, id) == awarded[i].1,
{
    let k = choose|k: int|
        0 <= k < awarded.len() && #[trigger] awarded[k].0 == id && forall|j: int|
            0 <= j < k ==> #[trigger] awarded[j].0 != id;
    assert(0 <= k < awarded.len() && awarded[k].0 == id && forall|j: int| 0 <= j < k ==> #[trigger] awarded[j].0 != id);
    if k < i {
        assert(awarded[k].0 != id);
    }
    if i < k {
        assert(awarded[i].0 != id);
    }
}

pub open spec fn at_capacity_count(ts: Seq<TeacherBalance>, awarded: Seq<(i64, i64)>) -> int
    decreases ts.len(),
{
    if ts.len() == 0 {
        0
    } else {
        let t = ts.last();
        at_capacity_count(ts.drop_last(), awarded) + if t.is_active && awarded_for(awarded, t.id) == t.capacity
            && t.capacity > 0 {
            1int
        } else {
            0int
        }
    }
}

/// Some pair of `pairs` has `id` first.
pub open spec fn listed(pairs: Seq<(i64, i64)>, id: i64) -> bool {
    exists|i: int| 0 <= i < pairs.len() && #[trigger] pairs[i].0 == id
}

pub open spec fn id_listed(ids: Seq<i64>, id: i64) -> bool {
    exists|i: int| 0 <= i < ids.len() && #[trigger] ids[i] == id
}

pub open spec fn without_location(cs: Seq<CompanyPresence>) -> int
    decreases cs.len(),
{
    if cs.len() == 0 {
        0
    } else {
        without_location(cs.drop_last()) + if !cs.last().has_location {
            1int
        } else {
            0int
        }
    }
}

pub open spec fn without_students(cs: Seq<CompanyPresence>, counts: Seq<(i64, i64)>) -> int
    decreases cs.len(),
{
    if cs.len() == 0 {
        0
    } else {
        without_students(cs.drop_last(), counts) + if !listed(counts, cs.last().id) {
            1int
        } else {
            0int
        }
    }
}

pub open spec fn without_assignment(cs: Seq<CompanyPresence>, counts: Seq<(i64, i64)>, assigned: Seq<i64>) -> int
    decreases cs.len(),
{
    if cs.len() == 0 {
        0
    } else {
        without_assignment(cs.drop_last(), counts, assigned) + if listed(counts, cs.last().id) && !id_listed(
            assigned,
            cs.last().id,
        ) {
            1int
        } else {
            0int
        }
    }
}

pub open spec fn unplaced(students: Seq<Option<i64>>) -> int
    decreases students.len(),
{
    if students.len() == 0 {
        0
    } else {
        unplaced(students.drop_last()) + if students.last() is None {
            1int
        } else {
            0int
        }
    }
}

fn awarded_hours_of(awarded: &Vec<(i64, i64)>, id: i64) -> (h: i64)
    ensures
        h == awarded_for(awarded@, id),
{
    let mut i: usize = 0;
    while i < awarded.len()
        invariant
            i <= awarded@.len(),
            forall|j: int| 0 <= j < i ==> #[trigger] awarded@[j].0 != id,
        decreases awarded@.len() - i,
    {
        if awarded[i].0 == id {
            proof {
                let c = choose|c: int|
                    0 <= c < awarded@.len() && #[trigger] awarded@[c].0 == id && forall|j: int|
                        0 <= j < c ==> #[trigger] awarded@[j].0 != id;
                assert(awarded@[i as int].0 == id);
                if c < i {
                    assert(awarded@[c].0 != id);
                }
                if i < c {
                    assert(awarded@[i as int].0 != id);
                }
            }
            return awarded[i].1;
        }
        i += 1;
    }
    0
}

fn pair_listed(pairs: &Vec<(i64, i64)>, id: i64) -> (b: bool)
    ensures
        b == listed(pairs@, id),
{
    let mut i: usize = 0;
    while i < pairs.len()
        invariant
            i <= pairs@.len(),
            forall|j: int| 0 <= j < i ==> #[trigger] pairs@[j].0 != id,
        decreases pairs@.len() - i,
    {
        if pairs[i].0 == id {
            return true;
        }
        i += 1;
    }
    false
}

fn id_in(ids: &Vec<i64>, id: i64) -> (b: bool)
    ensures
        b == id_listed(ids@, id),
{
    let mut i: usize = 0;
    while i < ids.len()
        invariant
            i <= ids@.len(),
            forall|j: int| 0 <= j < i ==> #[trigger] ids@[j] != id,
        decreases ids@.len() - i,
    {
        if ids[i] == id {
            return true;
        }
        i += 1;
    }
    false
}

proof fn lemma_teacher_counts_bounded(ts: Seq<TeacherBalance>, awarded: Seq<(i64, i64)>)
    ensures
        0 <= active_count(ts) <= ts.len(),
        0 <= over_count(ts, awarded) <= ts.len(),
        0 <= at_capacity_count(ts, awarded) <= ts.len(),
    decreases ts.len(),
{
    if ts.len() > 0 {
        lemma_teacher_counts_bounded(ts.drop_last(), awarded);
    }
}

proof fn lemma_company_counts_bounded(cs: Seq<CompanyPresence>, counts: Seq<(i64, i64)>, assigned: Seq<i64>)
    ensures
        0 <= without_location(cs) <= cs.len(),
        0 <= without_students(cs, counts) <= cs.len(),
        0 <= without_assignment(cs, counts, assigned) <= cs.len(),
    decreases cs.len(),
{
    if cs.len() > 0 {
        lemma_company_counts_bounded(cs.drop_last(), counts, assigned);
    }
}

proof fn lemma_unplaced_bounded(s: Seq<Option<i64>>)
    ensures
        0 <= unplaced(s) <= s.len(),
    decreases s.len(),
{
    if s.len() > 0 {
        lemma_unplaced_bounded(s.drop_last());
    }
}

/// Every partial capacity sum fits in an `i64` (the order of summing is the
/// order of `ts`).
pub open spec fn capacity_sums_fit(ts: Seq<TeacherBalance>) -> bool {
    forall|k: int| 0 <= k <= ts.len() ==> fits_i64(#[trigger] capacity_total(ts.take(k)))
}

/// The overview counters from what was read for the term: the active
/// companies, the company of every student of the term, every teacher with
/// its capacity, the awarded hours per teacher of the assigned companies,
/// the ids of the assigned companies, the students per company, the total
/// hours of the assigned companies, the pool and the total awarded hours.
pub fn dashboard_stats_from(
    term: String,
    companies: &Vec<CompanyPresence>,
    student_companies: &Vec<Option<i64>>,
    teachers: &Vec<TeacherBalance>,
    awarded_by_teacher: &Vec<(i64, i64)>,
    assigned_company_ids: &Vec<i64>,
    student_counts: &Vec<(i64, i64)>,
    assigned_hours: i64,
    pool_hours: i64,
    pool_awarded_hours: i64,
) -> (d: DashboardStats)
    requires
        companies@.len() <= i64::MAX,
        student_companies@.len() <= i64::MAX,
        teachers@.len() <= i64::MAX,
        capacity_sums_fit(teachers@),
        fits_i64(capacity_total(teachers@) - assigned_hours),
        fits_i64(pool_hours - pool_awarded_hours),
    ensures
        d.term == term,
        d.company_count == companies@.len(),
        d.student_count == student_companies@.len(),
        d.teacher_count == teachers@.len(),
        d.active_teacher_count == active_count(teachers@),
        d.total_capacity_hours == capacity_total(teachers@),
        d.assigned_hours == assigned_hours,
        d.remaining_hours == capacity_total(teachers@) - assigned_hours,
        d.teachers_at_capacity == at_capacity_count(teachers@, awarded_by_teacher@),
        d.teachers_over_capacity == over_count(teachers@, awarded_by_teacher@),
        d.pool_hours == pool_hours,
        d.awarded_hours == pool_awarded_hours,
        d.remaining_pool_hours == pool_hours - pool_awarded_hours,
        d.companies_without_location == without_location(companies@),
        d.students_without_company == unplaced(student_companies@),
        d.companies_without_students == without_students(companies@, student_counts@),
        d.companies_without_assignment == without_assignment(companies@, student_counts@, assigned_company_ids@),
{
    let mut total_capacity: i64 = 0;
    let mut active: i64 = 0;
    let mut at_capacity: i64 = 0;
    let mut over: i64 = 0;
    let mut i: usize = 0;
    while i < teachers.len()
        invariant
            i <= teachers@.len() <= i64::MAX,
            capacity_sums_fit(teachers@),
            total_capacity == capacity_total(teachers@.take(i as int)),
            active == active_count(teachers@.take(i as int)),
            at_capacity == at_capacity_count(teachers@.take(i as int), awarded_by_teacher@),
            over == over_count(teachers@.take(i as int), awarded_by_teacher@),
        decreases teachers@.len() - i,
    {
        let t = teachers[i];
        proof {
            let p = teachers@.take(i + 1);
            assert(p.drop_last() =~= teachers@.take(i as int));
            assert(p.last() == t);
            lemma_teacher_counts_bounded(teachers@.take(i as int), awarded_by_teacher@);
            assert(fits_i64(capacity_total(teachers@.take(i + 1))));
        }
        if t.is_active {
            total_capacity = total_capacity + t.capacity;
            active = active + 1;
            let awarded = awarded_hours_of(awarded_by_teacher, t.id);
            if awarded > t.capacity {
                over = over + 1;
            } else if awarded == t.capacity && t.capacity > 0 {
                at_capacity = at_capacity + 1;
            }
        }
        i += 1;
    }
    assert(teachers@.take(teachers@.len() as int) =~= teachers@);

    let mut no_location: i64 = 0;
    let mut no_students: i64 = 0;
    let mut no_assignment: i64 = 0;
    let mut c: usize = 0;
    while c < companies.len()
        invariant
            c <= companies@.len() <= i64::MAX,
            no_location == without_location(companies@.take(c as int)),
            no_students == without_students(companies@.take(c as int), student_counts@),
            no_assignment == without_assignment(companies@.take(c as int), student_counts@, assigned_company_ids@),
        decreases companies@.len() - c,
    {
        let company = companies[c];
        proof {
            let p = companies@.take(c + 1);
            assert(p.drop_last() =~= companies@.take(c as int));
            assert(p.last() == company);
            lemma_company_counts_bounded(companies@.take(c as int), student_counts@, assigned_company_ids@);
        }
        if !company.has_location {
            no_location = no_location + 1;
        }
        let has_students = pair_listed(student_counts, company.id);
        if !has_students {
            no_students = no_students + 1;
        }
        if has_students && !id_in(assigned_company_ids, company.id) {
            no_assignment = no_assignment + 1;
        }
        c += 1;
    }
    assert(companies@.take(companies@.len() as int) =~= companies@);

    let mut unplaced_students: i64 = 0;
    let mut s: usize = 0;
    while s < student_companies.len()
        invariant
            s <= student_companies@.len() <= i64::MAX,
            unplaced_students == unplaced(student_companies@.take(s as int)),
        decreases student_companies@.len() - s,
    {
        proof {
            let p = student_companies@.take(s + 1);
            assert(p.drop_last() =~= student_companies@.take(s as int));
            assert(p.last() == student_companies@[s as int]);
            lemma_unplaced_bounded(student_companies@.take(s as int));
        }
        if student_companies[s].is_none() {
            unplaced_students = unplaced_students + 1;
        }
        s += 1;
    }
    assert(student_companies@.take(student_companies@.len() as int) =~= student_companies@);

    DashboardStats {
        term,
        company_count: companies.len() as i64,
        student_count: student_companies.len() as i64,
        teacher_count: teachers.len() as i64,
        active_teacher_count: active,
        total_capacity_hours: total_capacity,
        assigned_hours,
        remaining_hours: total_capacity - assigned_hours,
        teachers_at_capacity: at_capacity,
        teachers_over_capacity: over,
        pool_hours,
        awarded_hours: pool_awarded_hours,
        remaining_pool_hours: pool_hours - pool_awarded_hours,
        companies_without_location: no_location,
        students_without_company: unplaced_students,
        companies_without_students: no_students,
        companies_without_assignment: no_assignment,
    }
}

} // verus!
