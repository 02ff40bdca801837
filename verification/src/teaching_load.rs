use vstd::prelude::*;
use crate::error::{rejects, validation, AppError};
use crate::model::chief_hours;
use crate::teachers::{chief_type_of, parse_chief_type};
use crate::text::{all_space, chars_eq, chars_of, concat, is_blank, lowercase, to_lowercase, trim, trimmed};

verus! {

/// Weekly lesson hours and group count of one grade+branch in a term.
///
/// When `is_group_manual` is false the stored `group_count` is only a cache:
/// the effective count follows the number of students.
#[derive(Debug, Clone)]
pub struct TermBranchHours {
    pub id: i64,
    pub term: String,
    pub grade: String,
    pub branch: String,
    pub weekly_hours: i64,
    pub group_count: i64,
    pub is_group_manual: bool,
    pub created_at: String,
    pub updated_at: String,
}

/// One row sent by the teaching-load screen.
#[derive(Debug, Clone)]
pub struct TermBranchHoursInput {
    pub grade: String,
    pub branch: String,
    pub weekly_hours: i64,
    /// Meaningful only when `is_group_manual` is true.
    pub group_count: i64,
    pub is_group_manual: bool,
}

/// Number of students per (grade, branch), keyed by the exact texts of the
/// student records. A later `insert` for a key replaces the earlier value.
#[derive(Debug, Clone)]
pub struct BranchStudentCounts {
    entries: Vec<(String, String, i64)>,
}

pub open spec fn count_lookup(s: Seq<(String, String, i64)>, grade: Seq<char>, branch: Seq<char>) -> Option<i64>
    decreases s.len(),
{
    if s.len() == 0 {
        None
    } else if s.last().0@ == grade && s.last().1@ == branch {
        Some(s.last().2)
    } else {
        count_lookup(s.drop_last(), grade, branch)
    }
}

impl BranchStudentCounts {
    /// The number of students recorded for `(grade, branch)`, if any.
    pub closed spec fn count(&self, grade: Seq<char>, branch: Seq<char>) -> Option<i64> {
        count_lookup(self.entries@, grade, branch)
    }

    /// The student count of a pair, zero when the pair has none.
    pub open spec fn students(&self, grade: Seq<char>, branch: Seq<char>) -> int {
        match self.count(grade, branch) {
            Some(n) => n as int,
            None => 0,
        }
    }

    pub fn new() -> (c: Self)
        ensures
            forall|g: Seq<char>, b: Seq<char>| c.count(g, b) is None,
    {
        BranchStudentCounts { entries: Vec::new() }
    }

    /// Records `count` students for `(grade, branch)`.
    pub fn insert(&mut self, grade: String, branch: String, count: i64)
        ensures
            forall|g: Seq<char>, b: Seq<char>| #[trigger]
                final(self).count(g, b) == if g == grade@ && b == branch@ {
                    Some(count)
                } else {
                    old(self).count(g, b)
                },
    {
        let ghost before = self.entries@;
        self.entries.push((grade, branch, count));
        assert(self.entries@.drop_last() =~= before);
    }

    /// The number of students recorded for `(grade, branch)`, if any.
    pub fn get(&self, grade: &str, branch: &str) -> (r: Option<i64>)
        ensures
            r == self.count(grade@, branch@),
    {
        let g = chars_of(grade);
        let b = chars_of(branch);
        let mut i = self.entries.len();
        assert(self.entries@.take(i as int) =~= self.entries@);
        while i > 0
            invariant
                i <= self.entries@.len(),
                g@ == grade@,
                b@ == branch@,
                count_lookup(self.entries@, grade@, branch@) == count_lookup(
                    self.entries@.take(i as int),
                    grade@,
                    branch@,
                ),
            decreases i,
        {
            let e = &self.entries[i - 1];
            let eg = chars_of(e.0.as_str());
            let eb = chars_of(e.1.as_str());
            proof {
                let t = self.entries@.take(i as int);
                assert(t.last() == self.entries@[i - 1]);
                assert(t.drop_last() =~= self.entries@.take(i - 1));
            }
            if chars_eq(&eg, &g) && chars_eq(&eb, &b) {
                return Some(e.2);
            }
            i -= 1;
        }
        None
    }
}

/// The counts of the (grade, branch, count) rows read from the students.
pub open spec fn counts_of_rows(rows: Seq<(String, String, i64)>, grade: Seq<char>, branch: Seq<char>) -> Option<i64> {
    count_lookup(rows, grade, branch)
}

impl BranchStudentCounts {
    /// The lookup table of the (grade, branch, count) rows; a later row for
    /// the same pair wins.
    pub fn from_rows(rows: Vec<(String, String, i64)>) -> (c: Self)
        ensures
            forall|g: Seq<char>, b: Seq<char>| #[trigger] c.count(g, b) == counts_of_rows(rows@, g, b),
    {
        BranchStudentCounts { entries: rows }
    }
}

/// The (grade, branch) pairs of the rows, in order.
pub fn pairs_of_rows(rows: &Vec<(String, String, i64)>) -> (p: Vec<(String, String)>)
    ensures
        p@.len() == rows@.len(),
        forall|k: int| 0 <= k < rows@.len() ==> (#[trigger] p@[k]).0@ == rows@[k].0@ && p@[k].1@ == rows@[k].1@,
{
    let mut out: Vec<(String, String)> = Vec::new();
    let mut i: usize = 0;
    while i < rows.len()
        invariant
            i <= rows@.len(),
            out@.len() == i,
            forall|k: int| 0 <= k < i ==> (#[trigger] out@[k]).0@ == rows@[k].0@ && out@[k].1@ == rows@[k].1@,
        decreases rows@.len() - i,
    {
        out.push((rows[i].0.clone(), rows[i].1.clone()));
        i += 1;
    }
    out
}

/// Groups a branch with `students` students is split into (Norm Kadro
/// Yönetmeliği MADDE 22/1-ç): one group per started sixteen students, none
/// without students.
pub open spec fn groups_for(students: int) -> int {
    if students <= 0 {
        0
    } else {
        (students + 15) / 16
    }
}

/// The group count is the number of started groups of sixteen: no group
/// without students, and otherwise `g` groups with `16 (g - 1) < n <= 16 g`.
pub proof fn lemma_groups_cover_students(students: int)
    ensures
        students <= 0 ==> groups_for(students) == 0,
        students > 0 ==> 16 * (groups_for(students) - 1) < students <= 16 * groups_for(students),
{
    if students > 0 {
        let g = groups_for(students);
        assert(g == (students + 15) / 16);
        assert(16 * g <= students + 15 < 16 * g + 16) by (nonlinear_arith)
            requires
                g == (students + 15) / 16,
                students > 0,
        ;
    }
}

pub fn groups_for_students(students: i64) -> (g: i64)
    ensures
        g == groups_for(students as int),
{
    if students <= 0 {
        0
    } else {
        (students - 1) / 16 + 1
    }
}

/// The automatic group count of a pair, from its number of students.
pub open spec fn auto_groups(counts: BranchStudentCounts, grade: Seq<char>, branch: Seq<char>) -> int {
    groups_for(counts.students(grade, branch))
}

/// Group count computed from the students of `(grade, branch)`; a pair with
/// no students gives 0 groups.
pub fn auto_group_count(counts: &BranchStudentCounts, grade: &str, branch: &str) -> (g: i64)
    ensures
        g == auto_groups(*counts, grade@, branch@),
{
    let students = match counts.get(grade, branch) {
        Some(n) => n,
        None => 0,
    };
    groups_for_students(students)
}

/// The effective group count of a stored row: the stored value for a manual
/// row, the computed one otherwise.
pub open spec fn effective_groups(saved: TermBranchHours, auto: int) -> int {
    if saved.is_group_manual {
        saved.group_count as int
    } else {
        auto
    }
}

/// The group count used by the pool and the screen: the stored value for a
/// manual row, `auto` for an automatic one.
pub fn effective_group_count(saved: &TermBranchHours, auto: i64) -> (g: i64)
    ensures
        g == effective_groups(*saved, auto as int),
{
    if saved.is_group_manual {
        saved.group_count
    } else {
        auto
    }
}

/// Weekly hours times effective groups of one stored row.
pub open spec fn row_hours(row: TermBranchHours, counts: BranchStudentCounts) -> int {
    row.weekly_hours * effective_groups(row, auto_groups(counts, row.grade@, row.branch@))
}

/// Σ (weekly hours × effective groups) over the rows.
pub open spec fn branch_hours_total(rows: Seq<TermBranchHours>, counts: BranchStudentCounts) -> int
    decreases rows.len(),
{
    if rows.len() == 0 {
        0
    } else {
        branch_hours_total(rows.drop_last(), counts) + row_hours(rows.last(), counts)
    }
}

pub open spec fn fits_i64(v: int) -> bool {
    i64::MIN <= v <= i64::MAX
}

proof fn lemma_product_bound(a: int, b: int)
    requires
        -0x8000_0000_0000_0000 <= a <= 0x8000_0000_0000_0000,
        -0x8000_0000_0000_0000 <= b <= 0x8000_0000_0000_0000,
    ensures
        -0x4000_0000_0000_0000_0000_0000_0000_0000 <= a * b <= 0x4000_0000_0000_0000_0000_0000_0000_0000,
{
    let x = if a < 0 { -a } else { a };
    let y = if b < 0 { -b } else { b };
    assert(0 <= x * y <= 0x8000_0000_0000_0000 * 0x8000_0000_0000_0000) by (nonlinear_arith)
        requires
            0 <= x <= 0x8000_0000_0000_0000,
            0 <= y <= 0x8000_0000_0000_0000,
    ;
    assert(a * b == x * y || a * b == -(x * y)) by (nonlinear_arith)
        requires
            x == (if a < 0 { -a } else { a }),
            y == (if b < 0 { -b } else { b }),
    ;
}

/// Every row product and every partial sum of the branch hours fits in an
/// `i64`: what `sum_branch_hours` needs.
pub open spec fn branch_hours_fit(rows: Seq<TermBranchHours>, counts: BranchStudentCounts) -> bool {
    &&& forall|k: int| 0 <= k < rows.len() ==> fits_i64(#[trigger] row_hours(rows[k], counts))
    &&& forall|k: int| 0 <= k <= rows.len() ==> fits_i64(#[trigger] branch_hours_total(rows.take(k), counts))
}

/// Whether the branch hours of the rows can be summed in an `i64`.
pub fn branch_hours_in_range(rows: &Vec<TermBranchHours>, counts: &BranchStudentCounts) -> (b: bool)
    ensures
        b == branch_hours_fit(rows@, *counts),
{
    let mut total: i128 = 0;
    let mut i: usize = 0;
    assert(rows@.take(0) =~= Seq::<TermBranchHours>::empty());
    while i < rows.len()
        invariant
            i <= rows@.len(),
            total == branch_hours_total(rows@.take(i as int), *counts),
            forall|k: int| 0 <= k < i ==> fits_i64(#[trigger] row_hours(rows@[k], *counts)),
            forall|k: int| 0 <= k <= i ==> fits_i64(#[trigger] branch_hours_total(rows@.take(k), *counts)),
        decreases rows@.len() - i,
    {
        let row = &rows[i];
        let auto = auto_group_count(counts, row.grade.as_str(), row.branch.as_str());
        let groups = effective_group_count(row, auto);
        let w = row.weekly_hours as i128;
        let g = groups as i128;
        proof {
            lemma_product_bound(w as int, g as int);
        }
        let product: i128 = w * g;
        assert(product == row_hours(rows@[i as int], *counts));
        if product < i64::MIN as i128 || product > i64::MAX as i128 {
            assert(!fits_i64(row_hours(rows@[i as int], *counts)));
            return false;
        }
        let next: i128 = total + product;
        proof {
            let t = rows@.take(i + 1);
            assert(t.drop_last() =~= rows@.take(i as int));
            assert(t.last() == rows@[i as int]);
        }
        if next < i64::MIN as i128 || next > i64::MAX as i128 {
            assert(next == branch_hours_total(rows@.take(i + 1), *counts));
            assert(!fits_i64(branch_hours_total(rows@.take(i + 1), *counts)));
            return false;
        }
        total = next;
        i += 1;
    }
    assert(rows@.take(rows@.len() as int) =~= rows@);
    true
}

/// Σ (weekly hours × effective group count) of the stored rows; 0 without rows.
pub fn sum_branch_hours(rows: &Vec<TermBranchHours>, counts: &BranchStudentCounts) -> (total: i64)
    requires
        forall|k: int| 0 <= k < rows@.len() ==> fits_i64(#[trigger] row_hours(rows@[k], *counts)),
        forall|k: int| 0 <= k <= rows@.len() ==> fits_i64(
            #[trigger] branch_hours_total(rows@.take(k), *counts),
        ),
    ensures
        total == branch_hours_total(rows@, *counts),
{
    let mut total: i64 = 0;
    let mut i: usize = 0;
    assert(rows@.take(0) =~= Seq::<TermBranchHours>::empty());
    while i < rows.len()
        invariant
            i <= rows@.len(),
            total == branch_hours_total(rows@.take(i as int), *counts),
            forall|k: int| 0 <= k < rows@.len() ==> fits_i64(
                #[trigger] row_hours(rows@[k], *counts),
            ),
            forall|k: int| 0 <= k <= rows@.len() ==> fits_i64(
                #[trigger] branch_hours_total(rows@.take(k), *counts),
            ),
        decreases rows@.len() - i,
    {
        let saved = &rows[i];
        let auto = auto_group_count(counts, saved.grade.as_str(), saved.branch.as_str());
        let groups = effective_group_count(saved, auto);
        proof {
            assert(row_hours(rows@[i as int], *counts) == saved.weekly_hours * groups);
            assert(fits_i64(row_hours(rows@[i as int], *counts)));
            let t = rows@.take(i + 1);
            assert(t.drop_last() =~= rows@.take(i as int));
            assert(t.last() == rows@[i as int]);
            assert(fits_i64(branch_hours_total(rows@.take(i + 1), *counts)));
        }
        let hours = saved.weekly_hours * groups;
        total = total + hours;
        i += 1;
    }
    assert(rows@.take(rows@.len() as int) =~= rows@);
    total
}

/// The two parts of the coordination teaching-load pool.
#[derive(Debug, Clone, Copy, PartialEq, Eq, Structural)]
pub struct PoolBreakdown {
    /// Σ (weekly hours × effective groups).
    pub branch_hours: i64,
    /// Planning-maintenance-repair hours of all chiefs.
    pub chief_planning_hours: i64,
}

impl PoolBreakdown {
    /// The whole pool: branch hours plus chief hours.
    pub fn total(self) -> (t: i64)
        requires
            fits_i64(self.branch_hours + self.chief_planning_hours),
        ensures
            t == self.branch_hours + self.chief_planning_hours,
    {
        self.branch_hours + self.chief_planning_hours
    }
}

/// Σ of the chief hours that the stored chief texts name.
pub open spec fn chief_hours_total(chief_types: Seq<String>) -> int
    decreases chief_types.len(),
{
    if chief_types.len() == 0 {
        0
    } else {
        chief_hours_total(chief_types.drop_last()) + chief_hours(chief_type_of(chief_types.last()@))
    }
}

proof fn lemma_chief_hours_total_bounds(s: Seq<String>)
    ensures
        0 <= chief_hours_total(s) <= 10 * s.len(),
    decreases s.len(),
{
    if s.len() > 0 {
        lemma_chief_hours_total_bounds(s.drop_last());
    }
}

/// Planning hours of the chiefs whose load rows are given by their stored
/// chief texts: department 10, workshop/laboratory 6, anything else 0.
pub fn chief_planning_hours(chief_types: &Vec<String>) -> (h: i64)
    requires
        chief_types@.len() <= 900_000_000_000_000_000,
    ensures
        h == chief_hours_total(chief_types@),
{
    let mut total: i64 = 0;
    let mut i: usize = 0;
    while i < chief_types.len()
        invariant
            i <= chief_types@.len() <= 900_000_000_000_000_000,
            total == chief_hours_total(chief_types@.take(i as int)),
        decreases chief_types@.len() - i,
    {
        proof {
            let t = chief_types@.take(i + 1);
            assert(t.drop_last() =~= chief_types@.take(i as int));
            lemma_chief_hours_total_bounds(chief_types@.take(i as int));
        }
        total = total + parse_chief_type(chief_types[i].as_str()).weekly_hours();
        i += 1;
    }
    assert(chief_types@.take(chief_types@.len() as int) =~= chief_types@);
    total
}

// ---------------------------------------------------------------------------
// Replacing the rows of a term
// ---------------------------------------------------------------------------

/// Why a single input row is refused, if it is.
pub open spec fn input_problem(row: TermBranchHoursInput) -> Option<Seq<char>> {
    if all_space(row.grade@) {
        Some("Sınıf boş olamaz"@)
    } else if all_space(row.branch@) {
        Some("Dal adı boş olamaz"@)
    } else if row.weekly_hours <= 0 {
        Some("Haftalık ders saati sıfırdan büyük olmalı"@)
    } else if row.is_group_manual && row.group_count <= 0 {
        Some("Grup sayısı en az 1 olmalı"@)
    } else {
        None
    }
}

/// What a row must be to be accepted: a non-blank grade and branch, positive
/// weekly hours, and, only for a manual row, a group count of at least 1. The
/// group count of an automatic row never decides.
pub proof fn lemma_row_acceptance(row: TermBranchHoursInput, other_group_count: i64)
    ensures
        input_problem(row) is None <==> (!all_space(row.grade@) && !all_space(row.branch@) && row.weekly_hours
            > 0 && (row.is_group_manual ==> row.group_count >= 1)),
        !row.is_group_manual ==> input_problem(row) == input_problem(
            TermBranchHoursInput { group_count: other_group_count, ..row },
        ),
{
}

/// Checks one input row: grade and branch not blank, weekly hours positive,
/// and a manual group count of at least 1 (an automatic row's count is ignored).
pub fn validate(input: &TermBranchHoursInput) -> (r: Result<(), AppError>)
    ensures
        match input_problem(*input) {
            Some(msg) => rejects(r, msg),
            None => r is Ok,
        },
{
    if is_blank(input.grade.as_str()) {
        return Err(validation("Sınıf boş olamaz"));
    }
    if is_blank(input.branch.as_str()) {
        return Err(validation("Dal adı boş olamaz"));
    }
    if input.weekly_hours <= 0 {
        return Err(validation("Haftalık ders saati sıfırdan büyük olmalı"));
    }
    if input.is_group_manual && input.group_count <= 0 {
        return Err(validation("Grup sayısı en az 1 olmalı"));
    }
    Ok(())
}

/// The group count written into a row: the client's value for a manual row,
/// otherwise the computed one but at least 1 (the cache a row starts from if
/// it is later switched to manual).
pub open spec fn stored_groups(row: TermBranchHoursInput, counts: BranchStudentCounts) -> int {
    if row.is_group_manual {
        row.group_count as int
    } else {
        let auto = auto_groups(counts, row.grade@, row.branch@);
        if auto >= 1 {
            auto
        } else {
            1
        }
    }
}

pub fn stored_group_count(row: &TermBranchHoursInput, counts: &BranchStudentCounts) -> (g: i64)
    ensures
        g == stored_groups(*row, *counts),
{
    if row.is_group_manual {
        return row.group_count;
    }
    let auto = auto_group_count(counts, row.grade.as_str(), row.branch.as_str());
    if auto >= 1 {
        auto
    } else {
        1
    }
}

/// The key under which two rows count as the same pair: trimmed, lowercased
/// grade and branch.
pub open spec fn row_key(row: TermBranchHoursInput) -> (Seq<char>, Seq<char>) {
    (lowercase(trim(row.grade@)), lowercase(trim(row.branch@)))
}

/// The problem of the first refused row, if any.
pub open spec fn first_problem(rows: Seq<TermBranchHoursInput>) -> Option<Seq<char>>
    decreases rows.len(),
{
    if rows.len() == 0 {
        None
    } else {
        match first_problem(rows.drop_last()) {
            Some(m) => Some(m),
            None => input_problem(rows.last()),
        }
    }
}

/// The index of the first row whose key an earlier row already has.
pub open spec fn first_repeat(rows: Seq<TermBranchHoursInput>) -> Option<int>
    decreases rows.len(),
{
    if rows.len() == 0 {
        None
    } else {
        match first_repeat(rows.drop_last()) {
            Some(j) => Some(j),
            None => if exists|i: int| 0 <= i < rows.len() - 1 && row_key(rows[i]) == row_key(
                rows.last(),
            ) {
                Some(rows.len() - 1)
            } else {
                None
            },
        }
    }
}

/// The message for a pair that occurs in more than one row.
pub open spec fn repeat_message(row: TermBranchHoursInput) -> Seq<char> {
    "\""@ + row.grade@ + "\" sınıfı için \""@ + row.branch@ + "\" dalı birden fazla satırda geçiyor"@
}

/// A row as it is written: the input and its stored group count.
#[derive(Debug, Clone)]
pub struct RowToWrite {
    pub grade: String,
    pub branch: String,
    pub weekly_hours: i64,
    pub group_count: i64,
    pub is_group_manual: bool,
}

proof fn lemma_first_problem_prefix(s: Seq<TermBranchHoursInput>, k: int)
    requires
        0 <= k <= s.len(),
        first_problem(s.take(k)) is Some,
    ensures
        first_problem(s) == first_problem(s.take(k)),
    decreases s.len(),
{
    if k < s.len() {
        assert(s.drop_last().take(k) =~= s.take(k));
        lemma_first_problem_prefix(s.drop_last(), k);
    } else {
        assert(s.take(k) =~= s);
    }
}

proof fn lemma_first_repeat_prefix(s: Seq<TermBranchHoursInput>, k: int)
    requires
        0 <= k <= s.len(),
        first_repeat(s.take(k)) is Some,
    ensures
        first_repeat(s) == first_repeat(s.take(k)),
    decreases s.len(),
{
    if k < s.len() {
        assert(s.drop_last().take(k) =~= s.take(k));
        lemma_first_repeat_prefix(s.drop_last(), k);
    } else {
        assert(s.take(k) =~= s);
    }
}

/// The message for a pair that occurs in more than one row.
pub fn repeat_message_of(row: &TermBranchHoursInput) -> (m: String)
    ensures
        m@ == repeat_message(*row),
{
    let a = concat("\"", row.grade.as_str());
    let b = concat(a.as_str(), "\" sınıfı için \"");
    let c = concat(b.as_str(), row.branch.as_str());
    concat(c.as_str(), "\" dalı birden fazla satırda geçiyor")
}

/// The trimmed, lowercased grade and branch of a row.
fn key_of(row: &TermBranchHoursInput) -> (k: (Vec<char>, Vec<char>))
    ensures
        k.0@ == row_key(*row).0,
        k.1@ == row_key(*row).1,
{
    let g = trimmed(row.grade.as_str());
    let b = trimmed(row.branch.as_str());
    let gl = to_lowercase(g.as_str());
    let bl = to_lowercase(b.as_str());
    (chars_of(gl.as_str()), chars_of(bl.as_str()))
}

/// What replacing all rows of a term writes, or why it is refused: every row
/// is checked first (the first refused row decides), then a pair may occur
/// only once (the first repeated row decides). Nothing is written on refusal.
pub fn plan_term_rows(rows: &Vec<TermBranchHoursInput>, counts: &BranchStudentCounts) -> (r: Result<Vec<RowToWrite>, AppError>)
    ensures
        first_problem(rows@) matches Some(msg) ==> rejects(r, msg),
        first_problem(rows@) is None && first_repeat(rows@) is Some ==> 0 <= first_repeat(
            rows@,
        )->0 < rows@.len() && rejects(r, repeat_message(rows@[first_repeat(rows@)->0])),
        first_problem(rows@) is None && first_repeat(rows@) is None ==> r is Ok,
        r matches Ok(out) ==> first_problem(rows@) is None && first_repeat(rows@) is None
            && out@.len() == rows@.len() && forall|k: int|
            0 <= k < rows@.len() ==> {
                &&& (#[trigger] out@[k]).grade@ == rows@[k].grade@
                &&& out@[k].branch@ == rows@[k].branch@
                &&& out@[k].weekly_hours == rows@[k].weekly_hours
                &&& out@[k].is_group_manual == rows@[k].is_group_manual
                &&& out@[k].group_count == stored_groups(rows@[k], *counts)
            },
{
    let n = rows.len();
    let mut i: usize = 0;
    assert(rows@.take(0) =~= Seq::<TermBranchHoursInput>::empty());
    while i < n
        invariant
            n == rows@.len(),
            i <= n,
            first_problem(rows@.take(i as int)) is None,
        decreases n - i,
    {
        let checked = validate(&rows[i]);
        proof {
            let t = rows@.take(i + 1);
            assert(t.drop_last() =~= rows@.take(i as int));
            assert(t.last() == rows@[i as int]);
        }
        match checked {
            Err(e) => {
                proof {
                    lemma_first_problem_prefix(rows@, i + 1);
                }
                return Err(e);
            },
            Ok(()) => {},
        }
        i += 1;
    }
    assert(rows@.take(n as int) =~= rows@);
    let mut keys: Vec<(Vec<char>, Vec<char>)> = Vec::new();
    let mut j: usize = 0;
    while j < n
        invariant
            n == rows@.len(),
            j <= n,
            first_problem(rows@) is None,
            keys@.len() == j,
            forall|k: int| 0 <= k < j ==> (#[trigger] keys@[k]).0@ == row_key(rows@[k]).0 && keys@[k].1@
                == row_key(rows@[k]).1,
            first_repeat(rows@.take(j as int)) is None,
        decreases n - j,
    {
        let key = key_of(&rows[j]);
        let mut m: usize = 0;
        while m < j
            invariant
                n == rows@.len(),
                m <= j < n,
                keys@.len() == j,
                forall|k: int| 0 <= k < j ==> (#[trigger] keys@[k]).0@ == row_key(rows@[k]).0 && keys@[k].1@
                    == row_key(rows@[k]).1,
                first_problem(rows@) is None,
                first_repeat(rows@.take(j as int)) is None,
                key.0@ == row_key(rows@[j as int]).0,
                key.1@ == row_key(rows@[j as int]).1,
                forall|k: int| 0 <= k < m ==> row_key(#[trigger] rows@[k]) != row_key(rows@[j as int]),
            decreases j - m,
        {
            if chars_eq(&keys[m].0, &key.0) && chars_eq(&keys[m].1, &key.1) {
                proof {
                    let t = rows@.take(j + 1);
                    assert(t.drop_last() =~= rows@.take(j as int));
                    assert(t.last() == rows@[j as int]);
                    assert(t[m as int] == rows@[m as int]);
                    assert(row_key(t[m as int]) == row_key(t.last()));
                    assert(first_repeat(t) == Some(j as int));
                    lemma_first_repeat_prefix(rows@, j + 1);
                }
                return Err(AppError::Validation(repeat_message_of(&rows[j])));
            }
            m += 1;
        }
        proof {
            let t = rows@.take(j + 1);
            assert(t.drop_last() =~= rows@.take(j as int));
            assert(t.last() == rows@[j as int]);
            assert forall|k: int| 0 <= k < t.len() - 1 implies row_key(t[k]) != row_key(t.last()) by {
                assert(t[k] == rows@[k]);
            }
        }
        keys.push(key);
        j += 1;
    }
    assert(rows@.take(n as int) =~= rows@);
    let mut out: Vec<RowToWrite> = Vec::new();
    let mut k: usize = 0;
    while k < n
        invariant
            n == rows@.len(),
            k <= n,
            out@.len() == k,
            forall|q: int| 0 <= q < k ==> {
                &&& (#[trigger] out@[q]).grade@ == rows@[q].grade@
                &&& out@[q].branch@ == rows@[q].branch@
                &&& out@[q].weekly_hours == rows@[q].weekly_hours
                &&& out@[q].is_group_manual == rows@[q].is_group_manual
                &&& out@[q].group_count == stored_groups(rows@[q], *counts)
            },
        decreases n - k,
    {
        let row = &rows[k];
        out.push(
            RowToWrite {
                grade: row.grade.clone(),
                branch: row.branch.clone(),
                weekly_hours: row.weekly_hours,
                group_count: stored_group_count(row, counts),
                is_group_manual: row.is_group_manual,
            },
        );
        k += 1;
    }
    Ok(out)
}

} // verus!
