use vstd::prelude::*;
use crate::sorting::{is_permutation, key_at, keys_view, sorts_stably, stable_order, SortKey};
use crate::teaching_load::{
    auto_group_count, auto_groups, effective_group_count, effective_groups, BranchStudentCounts,
    PoolBreakdown, TermBranchHours,
};
use crate::decimal::{count_string, decimal, push_decimal};
use crate::teaching_load::fits_i64;
use crate::text::{chars_of, concat, str_eq, string_of, texts_of};

verus! {

/// One row of the teaching-load screen: a stored row or a suggestion.
#[derive(Debug, Clone)]
pub struct TeachingLoadRow {
    /// Id of the stored row; a suggestion has none.
    pub id: Option<i64>,
    pub grade: String,
    pub branch: String,
    pub weekly_hours: i64,
    /// The effective group count: the stored one for a manual row, the
    /// automatic one otherwise.
    pub group_count: i64,
    /// The group count the number of students gives.
    pub auto_group_count: i64,
    pub is_group_manual: bool,
    /// The row comes from the student records and is not stored yet.
    pub is_suggested: bool,
}

/// A teaching-load row as plain values.
pub struct LoadRowView {
    pub id: Option<i64>,
    pub grade: Seq<char>,
    pub branch: Seq<char>,
    pub weekly_hours: i64,
    pub group_count: i64,
    pub auto_group_count: i64,
    pub is_group_manual: bool,
    pub is_suggested: bool,
}

impl View for TeachingLoadRow {
    type V = LoadRowView;

    open spec fn view(&self) -> LoadRowView {
        LoadRowView {
            id: self.id,
            grade: self.grade@,
            branch: self.branch@,
            weekly_hours: self.weekly_hours,
            group_count: self.group_count,
            auto_group_count: self.auto_group_count,
            is_group_manual: self.is_group_manual,
            is_suggested: self.is_suggested,
        }
    }
}

/// The whole teaching-load screen: its rows and the pool of the term.
#[derive(Debug, Clone)]
pub struct TeachingLoadBoard {
    pub term: String,
    pub rows: Vec<TeachingLoadRow>,
    /// `branch_hours + chief_planning_hours`.
    pub pool_hours: i64,
    /// Σ (weekly hours × effective groups) over the stored rows only.
    pub branch_hours: i64,
    pub chief_planning_hours: i64,
}

/// The screen row of a stored row.
pub open spec fn saved_view(s: TermBranchHours, counts: BranchStudentCounts) -> LoadRowView {
    let auto = auto_groups(counts, s.grade@, s.branch@);
    LoadRowView {
        id: Some(s.id),
        grade: s.grade@,
        branch: s.branch@,
        weekly_hours: s.weekly_hours,
        group_count: effective_groups(s, auto) as i64,
        auto_group_count: auto as i64,
        is_group_manual: s.is_group_manual,
        is_suggested: false,
    }
}

/// The suggestion row of a pair that has students but no stored row.
pub open spec fn suggestion_view(grade: Seq<char>, branch: Seq<char>, counts: BranchStudentCounts) -> LoadRowView {
    let auto = auto_groups(counts, grade, branch);
    LoadRowView {
        id: None,
        grade,
        branch,
        weekly_hours: 0,
        group_count: auto as i64,
        auto_group_count: auto as i64,
        is_group_manual: false,
        is_suggested: true,
    }
}

/// Some stored row has this grade and branch.
pub open spec fn has_saved_pair(existing: Seq<TermBranchHours>, grade: Seq<char>, branch: Seq<char>) -> bool {
    exists|i: int| 0 <= i < existing.len() && #[trigger] existing[i].grade@ == grade && existing[i].branch@ == branch
}

/// The suggestions, in the order of `pairs`, for the pairs without a stored row.
pub open spec fn suggested_rows(
    existing: Seq<TermBranchHours>,
    pairs: Seq<(String, String)>,
    counts: BranchStudentCounts,
) -> Seq<LoadRowView>
    decreases pairs.len(),
{
    if pairs.len() == 0 {
        Seq::empty()
    } else {
        let rest = suggested_rows(existing, pairs.drop_last(), counts);
        let g = pairs.last().0@;
        let b = pairs.last().1@;
        if has_saved_pair(existing, g, b) {
            rest
        } else {
            rest.push(suggestion_view(g, b, counts))
        }
    }
}

/// A suggestion is only made for a pair with students and no stored row:
/// every suggested row is marked as a suggestion, has no id, and its pair
/// has no stored row.
pub proof fn lemma_suggestions_avoid_saved_pairs(
    existing: Seq<TermBranchHours>,
    pairs: Seq<(String, String)>,
    counts: BranchStudentCounts,
)
    ensures
        forall|k: int|
            0 <= k < suggested_rows(existing, pairs, counts).len() ==> {
                let r = #[trigger] suggested_rows(existing, pairs, counts)[k];
                &&& r.is_suggested
                &&& r.id is None
                &&& r.weekly_hours == 0
                &&& !has_saved_pair(existing, r.grade, r.branch)
            },
    decreases pairs.len(),
{
    if pairs.len() > 0 {
        lemma_suggestions_avoid_saved_pairs(existing, pairs.drop_last(), counts);
        let rest = suggested_rows(existing, pairs.drop_last(), counts);
        let all = suggested_rows(existing, pairs, counts);
        assert forall|k: int| 0 <= k < all.len() implies {
            let r = #[trigger] all[k];
            &&& r.is_suggested
            &&& r.id is None
            &&& r.weekly_hours == 0
            &&& !has_saved_pair(existing, r.grade, r.branch)
        } by {
            if k < rest.len() {
                assert(all[k] == rest[k]);
            }
        }
    }
}

/// Stored rows first, then the suggestions: the rows before sorting.
pub open spec fn unsorted_rows(
    existing: Seq<TermBranchHours>,
    pairs: Seq<(String, String)>,
    counts: BranchStudentCounts,
) -> Seq<LoadRowView> {
    Seq::new(existing.len(), |i: int| saved_view(existing[i], counts)) + suggested_rows(
        existing,
        pairs,
        counts,
    )
}

/// The (grade, branch) sort keys of rows.
pub open spec fn grade_branch_keys(rows: Seq<LoadRowView>) -> Seq<SortKey> {
    Seq::new(rows.len(), |i: int| (rows[i].grade, rows[i].branch))
}

/// `out` is `rows` sorted stably by grade, then branch.
pub open spec fn sorted_by_grade_branch(out: Seq<LoadRowView>, rows: Seq<LoadRowView>) -> bool {
    exists|p: Seq<usize>|
        #![trigger is_permutation(p, rows.len() as int)]
        {
            &&& is_permutation(p, rows.len() as int)
            &&& sorts_stably(p, grade_branch_keys(rows))
            &&& out.len() == rows.len()
            &&& forall|k: int| 0 <= k < out.len() ==> out[k] == rows[#[trigger] p[k] as int]
        }
}

/// The views of rows.
pub open spec fn views_of(rows: Seq<TeachingLoadRow>) -> Seq<LoadRowView> {
    Seq::new(rows.len(), |i: int| rows[i]@)
}

fn copy_row(r: &TeachingLoadRow) -> (c: TeachingLoadRow)
    ensures
        c@ == r@,
{
    TeachingLoadRow {
        id: r.id,
        grade: r.grade.clone(),
        branch: r.branch.clone(),
        weekly_hours: r.weekly_hours,
        group_count: r.group_count,
        auto_group_count: r.auto_group_count,
        is_group_manual: r.is_group_manual,
        is_suggested: r.is_suggested,
    }
}

/// Whether some stored row has this grade and branch.
fn saved_pair_exists(existing: &Vec<TermBranchHours>, grade: &str, branch: &str) -> (b: bool)
    ensures
        b == has_saved_pair(existing@, grade@, branch@),
{
    let mut i: usize = 0;
    while i < existing.len()
        invariant
            i <= existing@.len(),
            forall|k: int| 0 <= k < i ==> !(#[trigger] existing@[k].grade@ == grade@ && existing@[k].branch@ == branch@),
        decreases existing@.len() - i,
    {
        if str_eq(existing[i].grade.as_str(), grade) && str_eq(existing[i].branch.as_str(), branch) {
            return true;
        }
        i += 1;
    }
    false
}

/// Stored rows together with suggestions for the pairs that have students
/// but no stored row, sorted by grade and then branch (equal keys keep their
/// order, stored rows before suggestions). A pair with a stored row gets no
/// suggestion.
pub fn merge_with_suggestions(
    existing: Vec<TermBranchHours>,
    student_pairs: Vec<(String, String)>,
    student_counts: &BranchStudentCounts,
) -> (rows: Vec<TeachingLoadRow>)
    ensures
        sorted_by_grade_branch(views_of(rows@), unsorted_rows(existing@, student_pairs@, *student_counts)),
{
    let ghost u_saved = Seq::new(existing@.len(), |i: int| saved_view(existing@[i], *student_counts));
    let mut unsorted: Vec<TeachingLoadRow> = Vec::new();
    let mut i: usize = 0;
    while i < existing.len()
        invariant
            i <= existing@.len(),
            u_saved == Seq::new(existing@.len(), |i: int| saved_view(existing@[i], *student_counts)),
            views_of(unsorted@) =~= u_saved.take(i as int),
        decreases existing@.len() - i,
    {
        let saved = &existing[i];
        let auto = auto_group_count(student_counts, saved.grade.as_str(), saved.branch.as_str());
        let row = TeachingLoadRow {
            id: Some(saved.id),
            grade: saved.grade.clone(),
            branch: saved.branch.clone(),
            weekly_hours: saved.weekly_hours,
            group_count: effective_group_count(saved, auto),
            auto_group_count: auto,
            is_group_manual: saved.is_group_manual,
            is_suggested: false,
        };
        let ghost before = views_of(unsorted@);
        unsorted.push(row);
        proof {
            assert(row@ == saved_view(existing@[i as int], *student_counts));
            assert(views_of(unsorted@) =~= before.push(row@));
            assert(u_saved.take(i + 1) =~= u_saved.take(i as int).push(u_saved[i as int]));
        }
        i += 1;
    }
    let mut j: usize = 0;
    while j < student_pairs.len()
        invariant
            j <= student_pairs@.len(),
            u_saved == Seq::new(existing@.len(), |i: int| saved_view(existing@[i], *student_counts)),
            views_of(unsorted@) =~= u_saved + suggested_rows(existing@, student_pairs@.take(j as int), *student_counts),
        decreases student_pairs@.len() - j,
    {
        let pair = &student_pairs[j];
        proof {
            let t = student_pairs@.take(j + 1);
            assert(t.drop_last() =~= student_pairs@.take(j as int));
            assert(t.last() == student_pairs@[j as int]);
        }
        let ghost before = views_of(unsorted@);
        if !saved_pair_exists(&existing, pair.0.as_str(), pair.1.as_str()) {
            let auto = auto_group_count(student_counts, pair.0.as_str(), pair.1.as_str());
            let row = TeachingLoadRow {
                id: None,
                grade: pair.0.clone(),
                branch: pair.1.clone(),
                weekly_hours: 0,
                group_count: auto,
                auto_group_count: auto,
                is_group_manual: false,
                is_suggested: true,
            };
            unsorted.push(row);
            proof {
                assert(row@ == suggestion_view(pair.0@, pair.1@, *student_counts));
                assert(views_of(unsorted@) =~= before.push(row@));
            }
        }
        j += 1;
    }
    assert(student_pairs@.take(student_pairs@.len() as int) =~= student_pairs@);
    let ghost u = unsorted_rows(existing@, student_pairs@, *student_counts);
    assert(views_of(unsorted@) =~= u);

    let mut keys: Vec<(Vec<char>, Vec<char>)> = Vec::new();
    let mut k: usize = 0;
    while k < unsorted.len()
        invariant
            k <= unsorted@.len(),
            keys@.len() == k,
            forall|q: int| 0 <= q < k ==> #[trigger] key_at(keys@, q) == (unsorted@[q].grade@, unsorted@[q].branch@),
        decreases unsorted@.len() - k,
    {
        let ghost before = keys@;
        keys.push((chars_of(unsorted[k].grade.as_str()), chars_of(unsorted[k].branch.as_str())));
        proof {
            assert forall|q: int| 0 <= q < k + 1 implies #[trigger] key_at(keys@, q) == (unsorted@[q].grade@, unsorted@[q].branch@) by {
                if q < k {
                    assert(keys@[q] == before[q]);
                    assert(key_at(before, q) == key_at(keys@, q));
                }
            }
        }
        k += 1;
    }
    let p = stable_order(&keys);
    proof {
        assert forall|q: int| 0 <= q < keys@.len() implies keys_view(keys@)[q] == grade_branch_keys(u)[q] by {
            assert(key_at(keys@, q) == (unsorted@[q].grade@, unsorted@[q].branch@));
            assert(views_of(unsorted@)[q] == unsorted@[q]@);
        }
        assert(keys_view(keys@) =~= grade_branch_keys(u));
    }

    let mut out: Vec<TeachingLoadRow> = Vec::new();
    let mut m: usize = 0;
    while m < p.len()
        invariant
            m <= p@.len(),
            is_permutation(p@, unsorted@.len() as int),
            out@.len() == m,
            forall|q: int| 0 <= q < m ==> (#[trigger] out@[q])@ == unsorted@[p@[q] as int]@,
        decreases p@.len() - m,
    {
        let idx = p[m];
        out.push(copy_row(&unsorted[idx]));
        m += 1;
    }
    proof {
        assert forall|q: int| 0 <= q < out@.len() implies views_of(out@)[q] == u[#[trigger] p@[q] as int] by {
            assert(views_of(unsorted@)[p@[q] as int] == unsorted@[p@[q] as int]@);
        }
        assert(is_permutation(p@, u.len() as int));
    }
    out
}

/// Builds the teaching-load screen from the rows read for the term: the
/// stored rows, the (grade, branch) pairs of the students, the student
/// counts and the two parts of the pool.
pub fn build_teaching_load_board(
    term: &str,
    existing: Vec<TermBranchHours>,
    student_pairs: Vec<(String, String)>,
    student_counts: &BranchStudentCounts,
    breakdown: PoolBreakdown,
) -> (b: TeachingLoadBoard)
    requires
        fits_i64(breakdown.branch_hours + breakdown.chief_planning_hours),
    ensures
        b.term@ == term@,
        sorted_by_grade_branch(views_of(b.rows@), unsorted_rows(existing@, student_pairs@, *student_counts)),
        b.pool_hours == b.branch_hours + b.chief_planning_hours,
        b.branch_hours == breakdown.branch_hours,
        b.chief_planning_hours == breakdown.chief_planning_hours,
{
    TeachingLoadBoard {
        term: string_of(term),
        rows: merge_with_suggestions(existing, student_pairs, student_counts),
        pool_hours: breakdown.total(),
        branch_hours: breakdown.branch_hours,
        chief_planning_hours: breakdown.chief_planning_hours,
    }
}

/// A row sent by the automatic distribution button.
#[derive(Debug, Clone, Copy, PartialEq, Eq, Structural)]
pub struct AutoDistributeRow {
    pub company_id: i64,
    pub max_hours: i64,
    pub student_count: i64,
    pub is_locked: bool,
    pub current_awarded: i64,
    pub is_honorary: bool,
}

// ---------------------------------------------------------------------------
// The award screen
// ---------------------------------------------------------------------------

/// What the totals of the award screen read of a row.
#[derive(Debug, Clone, Copy, PartialEq, Eq, Structural)]
pub struct HoursTally {
    /// The ceiling from the hour rules; none when no rule fits.
    pub max_hours: Option<i64>,
    pub awarded_hours: i64,
    pub is_honorary: bool,
    pub is_locked: bool,
}

/// The totals and warnings of the award screen.
#[derive(Debug, Clone)]
pub struct HoursSummary {
    pub total_awarded: i64,
    pub total_max: i64,
    pub honorary_count: i64,
    pub locked_count: i64,
    pub without_rule_count: i64,
    pub warnings: Vec<String>,
}

/// A stored award as the row of a company reads it: awarded hours (0 when
/// none is stored), honorary and locked flags, notes, and whether it exists.
pub fn award_of(saved: Option<&crate::model::CompanyTermHours>) -> (r: (i64, bool, bool, String, bool))
    ensures
        match saved {
            Some(h) => r.0 == h.awarded_hours && r.1 == (h.is_honorary == 1) && r.2 == (h.is_locked == 1)
                && r.3@ == h.notes@ && r.4,
            None => r.0 == 0 && !r.1 && !r.2 && r.3@.len() == 0 && !r.4,
        },
{
    match saved {
        Some(h) => (h.awarded_hours, h.is_honorary == 1, h.is_locked == 1, h.notes.clone(), true),
        None => (0, false, false, String::new(), false),
    }
}

pub open spec fn awarded_total(rows: Seq<HoursTally>) -> int
    decreases rows.len(),
{
    if rows.len() == 0 {
        0
    } else {
        awarded_total(rows.drop_last()) + rows.last().awarded_hours
    }
}

pub open spec fn max_total(rows: Seq<HoursTally>) -> int
    decreases rows.len(),
{
    if rows.len() == 0 {
        0
    } else {
        max_total(rows.drop_last()) + match rows.last().max_hours {
            Some(m) => m as int,
            None => 0int,
        }
    }
}

pub open spec fn honorary_total(rows: Seq<HoursTally>) -> int
    decreases rows.len(),
{
    if rows.len() == 0 {
        0
    } else {
        honorary_total(rows.drop_last()) + if rows.last().is_honorary {
            1int
        } else {
            0int
        }
    }
}

pub open spec fn locked_total(rows: Seq<HoursTally>) -> int
    decreases rows.len(),
{
    if rows.len() == 0 {
        0
    } else {
        locked_total(rows.drop_last()) + if rows.last().is_locked {
            1int
        } else {
            0int
        }
    }
}

pub open spec fn without_rule_total(rows: Seq<HoursTally>) -> int
    decreases rows.len(),
{
    if rows.len() == 0 {
        0
    } else {
        without_rule_total(rows.drop_last()) + if rows.last().max_hours is None {
            1int
        } else {
            0int
        }
    }
}

/// The warnings of the award screen: no pool, or awards above the pool;
/// then the companies no hour rule fits.
pub open spec fn hours_warning_texts(total_awarded: int, pool_hours: int, without_rule: int) -> Seq<Seq<char>> {
    (if pool_hours == 0 {
        seq![
            "Bu dönem için ders yükü havuzu tanımlanmamış. Takdir edilen saatler bir üst sınırla karşılaştırılamıyor. Önce Ders Yükü ekranından bu dönemin sınıf/dal saatlerini girin."@,
        ]
    } else if total_awarded > pool_hours {
        seq![
            "Toplam takdir edilen saat ("@ + decimal(total_awarded) + ") ders yükü havuzunu ("@ + decimal(pool_hours)
                + ") aşıyor!"@,
        ]
    } else {
        Seq::empty()
    }) + (if without_rule > 0 {
        seq![decimal(without_rule) + " işletmenin mesafe ve öğrenci sayısına uyan saat kuralı yok; tavan hesaplanamadı."@]
    } else {
        Seq::empty()
    })
}

/// The pool warning of the award screen: with no pool, only the missing-pool
/// warning; with a pool, the exceeded-pool warning exactly when the awarded
/// total is strictly above it (awarding the whole pool is no excess); the
/// missing-rule warning comes last exactly when some company has no rule.
pub proof fn lemma_pool_warning_only_above_the_pool(total_awarded: int, pool_hours: int, without_rule: int)
    ensures
        ({
            let w = hours_warning_texts(total_awarded, pool_hours, without_rule);
            let pool_part: int = if pool_hours == 0 || total_awarded > pool_hours { 1 } else { 0 };
            &&& w.len() == pool_part + if without_rule > 0 { 1int } else { 0int }
            &&& pool_hours != 0 && total_awarded <= pool_hours ==> forall|i: int|
                0 <= i < w.len() ==> (#[trigger] w[i]) == decimal(without_rule)
                    + " işletmenin mesafe ve öğrenci sayısına uyan saat kuralı yok; tavan hesaplanamadı."@
            &&& pool_hours != 0 && total_awarded > pool_hours ==> w[0] == "Toplam takdir edilen saat ("@
                + decimal(total_awarded) + ") ders yükü havuzunu ("@ + decimal(pool_hours) + ") aşıyor!"@
        }),
{
}

/// Every partial sum of awarded hours and of ceilings fits in an `i64`.
pub open spec fn hour_sums_fit(rows: Seq<HoursTally>) -> bool {
    forall|k: int| 0 <= k <= rows.len() ==> fits_i64(#[trigger] awarded_total(rows.take(k))) && fits_i64(
        max_total(rows.take(k)),
    )
}

proof fn lemma_hour_counts_bounded(rows: Seq<HoursTally>)
    ensures
        0 <= honorary_total(rows) <= rows.len(),
        0 <= locked_total(rows) <= rows.len(),
        0 <= without_rule_total(rows) <= rows.len(),
    decreases rows.len(),
{
    if rows.len() > 0 {
        lemma_hour_counts_bounded(rows.drop_last());
    }
}

/// The totals and warnings of the award screen over its rows.
pub fn hours_summary(rows: &Vec<HoursTally>, pool_hours: i64) -> (s: HoursSummary)
    requires
        rows@.len() <= i64::MAX,
        hour_sums_fit(rows@),
    ensures
        s.total_awarded == awarded_total(rows@),
        s.total_max == max_total(rows@),
        s.honorary_count == honorary_total(rows@),
        s.locked_count == locked_total(rows@),
        s.without_rule_count == without_rule_total(rows@),
        texts_of(s.warnings@) == hours_warning_texts(awarded_total(rows@), pool_hours as int, without_rule_total(rows@)),
{
    let mut awarded: i64 = 0;
    let mut max: i64 = 0;
    let mut honorary: i64 = 0;
    let mut locked: i64 = 0;
    let mut without_rule: i64 = 0;
    let mut i: usize = 0;
    while i < rows.len()
        invariant
            i <= rows@.len() <= i64::MAX,
            hour_sums_fit(rows@),
            awarded == awarded_total(rows@.take(i as int)),
            max == max_total(rows@.take(i as int)),
            honorary == honorary_total(rows@.take(i as int)),
            locked == locked_total(rows@.take(i as int)),
            without_rule == without_rule_total(rows@.take(i as int)),
        decreases rows@.len() - i,
    {
        let r = rows[i];
        proof {
            let p = rows@.take(i + 1);
            assert(p.drop_last() =~= rows@.take(i as int));
            assert(p.last() == r);
            assert(fits_i64(awarded_total(rows@.take(i + 1))) && fits_i64(max_total(rows@.take(i + 1))));
            lemma_hour_counts_bounded(rows@.take(i as int));
        }
        awarded = awarded + r.awarded_hours;
        match r.max_hours {
            Some(m) => {
                max = max + m;
            },
            None => {
                without_rule = without_rule + 1;
            },
        }
        if r.is_honorary {
            honorary = honorary + 1;
        }
        if r.is_locked {
            locked = locked + 1;
        }
        i += 1;
    }
    assert(rows@.take(rows@.len() as int) =~= rows@);
    let mut warnings: Vec<String> = Vec::new();
    if pool_hours == 0 {
        warnings.push(
            string_of(
                "Bu dönem için ders yükü havuzu tanımlanmamış. Takdir edilen saatler bir üst sınırla karşılaştırılamıyor. Önce Ders Yükü ekranından bu dönemin sınıf/dal saatlerini girin.",
            ),
        );
    } else if awarded > pool_hours {
        let mut m = string_of("Toplam takdir edilen saat (");
        push_decimal(&mut m, awarded);
        let m2 = concat(m.as_str(), ") ders yükü havuzunu (");
        let mut m3 = m2;
        push_decimal(&mut m3, pool_hours);
        let m4 = concat(m3.as_str(), ") aşıyor!");
        warnings.push(m4);
    }
    if without_rule > 0 {
        let n = count_string(without_rule as u64);
        warnings.push(concat(n.as_str(), " işletmenin mesafe ve öğrenci sayısına uyan saat kuralı yok; tavan hesaplanamadı."));
    }
    assert(texts_of(warnings@) =~= hours_warning_texts(awarded_total(rows@), pool_hours as int, without_rule_total(rows@)));
    HoursSummary {
        total_awarded: awarded,
        total_max: max,
        honorary_count: honorary,
        locked_count: locked,
        without_rule_count: without_rule,
        warnings,
    }
}

} // verus!
