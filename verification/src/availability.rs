use vstd::prelude::*;
use crate::assignment::{slot_key, slot_key_of};
use crate::decimal::{count_string, decimal};
use crate::error::{rejects, validation, AppError};
use crate::model::{AvailabilitySlot, ClassWorkplaceDay, Teacher};
use crate::ordered::{has_text, increasing_days, increasing_texts, insert_day, insert_text};
use crate::settings::{hour_setting, parse_hour_setting, Settings};
use crate::sorting::{is_permutation, key_at, keys_view, sorts_stably, stable_order, SortKey};
use crate::text::{all_space, chars_of, concat, is_blank, str_eq, string_of, texts_of, trim, trimmed};

verus! {

/// A teacher on the availability screen.
#[derive(Debug, Clone)]
pub struct AvailabilityTeacher {
    pub teacher_id: i64,
    pub teacher_name: String,
    /// Free hours as `{day}-{hour}` keys.
    pub free_slots: Vec<String>,
    pub free_count: i64,
}

/// The workplace days of a class.
#[derive(Debug, Clone)]
pub struct ClassDays {
    pub grade: String,
    /// Days 1-5, increasing, each once.
    pub days: Vec<i64>,
    /// Students of the class in the term.
    pub student_count: i64,
}

/// The availability screen.
#[derive(Debug, Clone)]
pub struct AvailabilityBoard {
    pub term: String,
    pub teachers: Vec<AvailabilityTeacher>,
    pub classes: Vec<ClassDays>,
    pub day_start_hour: i64,
    pub day_end_hour: i64,
    /// Other terms a schedule can be copied from.
    pub other_terms: Vec<String>,
    pub warnings: Vec<String>,
}

/// One cell sent by the grid.
#[derive(Debug, Clone, Copy, PartialEq, Eq, Structural)]
pub struct SlotInput {
    pub day_of_week: i64,
    pub hour: i64,
}

/// What copying the schedule of another term did.
#[derive(Debug, Clone)]
pub struct CopyOutcome {
    pub availability_copied: bool,
    pub class_days_copied: bool,
    pub board: AvailabilityBoard,
}

// ---------------------------------------------------------------------------
// Teachers and their free hours
// ---------------------------------------------------------------------------

/// The cell keys of the free hours of `teacher_id`, in the order of `slots`.
pub open spec fn free_keys(slots: Seq<AvailabilitySlot>, teacher_id: i64) -> Seq<Seq<char>>
    decreases slots.len(),
{
    if slots.len() == 0 {
        Seq::empty()
    } else {
        let rest = free_keys(slots.drop_last(), teacher_id);
        let s = slots.last();
        if s.teacher_id == teacher_id {
            rest.push(slot_key(s.day_of_week as int, s.hour as int))
        } else {
            rest
        }
    }
}

/// The free-hour keys of a teacher.
pub fn free_slot_keys(teacher_id: i64, slots: &Vec<AvailabilitySlot>) -> (r: Vec<String>)
    ensures
        texts_of(r@) == free_keys(slots@, teacher_id),
{
    let mut out: Vec<String> = Vec::new();
    let mut i: usize = 0;
    while i < slots.len()
        invariant
            i <= slots@.len(),
            texts_of(out@) == free_keys(slots@.take(i as int), teacher_id),
        decreases slots@.len() - i,
    {
        let s = slots[i];
        proof {
            let t = slots@.take(i + 1);
            assert(t.drop_last() =~= slots@.take(i as int));
            assert(t.last() == s);
        }
        if s.teacher_id == teacher_id {
            let k = slot_key_of(s.day_of_week, s.hour);
            let ghost before = texts_of(out@);
            out.push(k);
            assert(texts_of(out@) =~= before.push(k@));
        }
        i += 1;
    }
    assert(slots@.take(slots@.len() as int) =~= slots@);
    out
}

/// How a teacher's name is shown: first name, a space, last name.
pub open spec fn full_name(first: Seq<char>, last: Seq<char>) -> Seq<char> {
    first + " "@ + last
}

pub fn teacher_name(t: &Teacher) -> (n: String)
    ensures
        n@ == full_name(t.first_name@, t.last_name@),
{
    let a = concat(t.first_name.as_str(), " ");
    concat(a.as_str(), t.last_name.as_str())
}

/// The availability row of a teacher: its name and its free hours.
pub open spec fn availability_row_ok(r: AvailabilityTeacher, t: Teacher, slots: Seq<AvailabilitySlot>) -> bool {
    &&& r.teacher_id == t.id
    &&& r.teacher_name@ == full_name(t.first_name@, t.last_name@)
    &&& texts_of(r.free_slots@) == free_keys(slots, t.id)
    &&& r.free_count == r.free_slots@.len()
}

pub fn availability_teacher(t: &Teacher, slots: &Vec<AvailabilitySlot>) -> (r: AvailabilityTeacher)
    requires
        slots@.len() <= i64::MAX,
    ensures
        availability_row_ok(r, *t, slots@),
{
    let free = free_slot_keys(t.id, slots);
    proof {
        lemma_free_keys_len(slots@, t.id);
    }
    let n = free.len() as i64;
    AvailabilityTeacher { teacher_id: t.id, teacher_name: teacher_name(t), free_slots: free, free_count: n }
}

proof fn lemma_free_keys_len(slots: Seq<AvailabilitySlot>, id: i64)
    ensures
        free_keys(slots, id).len() <= slots.len(),
    decreases slots.len(),
{
    if slots.len() > 0 {
        lemma_free_keys_len(slots.drop_last(), id);
    }
}

// ---------------------------------------------------------------------------
// Classes and their workplace days
// ---------------------------------------------------------------------------

/// Some class-day row is for `grade`.
pub open spec fn has_day_row(rows: Seq<ClassWorkplaceDay>, grade: Seq<char>) -> bool {
    exists|i: int| 0 <= i < rows.len() && #[trigger] rows[i].grade@ == grade
}

/// Some class-day row puts `grade` at the workplaces on `day`.
pub open spec fn is_workplace_day(rows: Seq<ClassWorkplaceDay>, grade: Seq<char>, day: i64) -> bool {
    exists|i: int| 0 <= i < rows.len() && #[trigger] rows[i].grade@ == grade && rows[i].day_of_week == day
}

/// Number of students whose grade is `grade`.
pub open spec fn grade_count(grades: Seq<String>, grade: Seq<char>) -> int
    decreases grades.len(),
{
    if grades.len() == 0 {
        0
    } else {
        grade_count(grades.drop_last(), grade) + if grades.last()@ == grade {
            1int
        } else {
            0int
        }
    }
}

proof fn lemma_grade_count_bounds(grades: Seq<String>, grade: Seq<char>)
    ensures
        0 <= grade_count(grades, grade) <= grades.len(),
    decreases grades.len(),
{
    if grades.len() > 0 {
        lemma_grade_count_bounds(grades.drop_last(), grade);
    }
}

/// The grades shown: those of the students and those with class-day rows,
/// sorted, each once.
pub fn class_grades(student_grades: &Vec<String>, rows: &Vec<ClassWorkplaceDay>) -> (r: Vec<String>)
    ensures
        increasing_texts(r@),
        forall|g: Seq<char>| has_text(r@, g) <==> (has_text(student_grades@, g) || has_day_row(rows@, g)),
{
    let mut out: Vec<String> = Vec::new();
    let mut i: usize = 0;
    while i < student_grades.len()
        invariant
            i <= student_grades@.len(),
            increasing_texts(out@),
            forall|g: Seq<char>| has_text(out@, g) <==> exists|k: int| 0 <= k < i && #[trigger] student_grades@[k]@ == g,
        decreases student_grades@.len() - i,
    {
        let ghost before = out@;
        insert_text(&mut out, student_grades[i].clone());
        proof {
            assert forall|g: Seq<char>| has_text(out@, g) <==> exists|k: int| 0 <= k < i + 1 && #[trigger] student_grades@[k]@ == g by {
                if g == student_grades@[i as int]@ {
                    assert(student_grades@[i as int]@ == g);
                }
                if exists|k: int| 0 <= k < i + 1 && #[trigger] student_grades@[k]@ == g {
                    let k = choose|k: int| 0 <= k < i + 1 && #[trigger] student_grades@[k]@ == g;
                    if k < i {
                        assert(has_text(before, g));
                    }
                }
            }
        }
        i += 1;
    }
    let mut j: usize = 0;
    while j < rows.len()
        invariant
            j <= rows@.len(),
            increasing_texts(out@),
            forall|g: Seq<char>| has_text(out@, g) <==> (has_text(student_grades@, g) || exists|k: int|
                0 <= k < j && #[trigger] rows@[k].grade@ == g),
        decreases rows@.len() - j,
    {
        let ghost before = out@;
        insert_text(&mut out, rows[j].grade.clone());
        proof {
            assert forall|g: Seq<char>| has_text(out@, g) <==> (has_text(student_grades@, g) || exists|k: int|
                0 <= k < j + 1 && #[trigger] rows@[k].grade@ == g) by {
                if g == rows@[j as int].grade@ {
                    assert(rows@[j as int].grade@ == g);
                }
                if exists|k: int| 0 <= k < j + 1 && #[trigger] rows@[k].grade@ == g {
                    let k = choose|k: int| 0 <= k < j + 1 && #[trigger] rows@[k].grade@ == g;
                    if k < j {
                        assert(has_text(before, g));
                    }
                }
            }
        }
        j += 1;
    }
    out
}

/// The class row of `grade`: its workplace days, increasing and each once,
/// and its number of students.
pub open spec fn class_row_ok(c: ClassDays, grade: Seq<char>, student_grades: Seq<String>, rows: Seq<ClassWorkplaceDay>) -> bool {
    &&& c.grade@ == grade
    &&& increasing_days(c.days@)
    &&& forall|d: i64| c.days@.contains(d) <==> is_workplace_day(rows, grade, d)
    &&& c.student_count == grade_count(student_grades, grade)
}

pub fn class_days_for(grade: &String, student_grades: &Vec<String>, rows: &Vec<ClassWorkplaceDay>) -> (c: ClassDays)
    requires
        student_grades@.len() <= i64::MAX,
    ensures
        class_row_ok(c, grade@, student_grades@, rows@),
{
    let mut days: Vec<i64> = Vec::new();
    let mut i: usize = 0;
    while i < rows.len()
        invariant
            i <= rows@.len(),
            increasing_days(days@),
            forall|d: i64| days@.contains(d) <==> exists|k: int|
                0 <= k < i && #[trigger] rows@[k].grade@ == grade@ && rows@[k].day_of_week == d,
        decreases rows@.len() - i,
    {
        if str_eq(rows[i].grade.as_str(), grade.as_str()) {
            let ghost before = days@;
            insert_day(&mut days, rows[i].day_of_week);
            proof {
                assert forall|d: i64| days@.contains(d) <==> exists|k: int|
                    0 <= k < i + 1 && #[trigger] rows@[k].grade@ == grade@ && rows@[k].day_of_week == d by {
                    if d == rows@[i as int].day_of_week {
                        assert(rows@[i as int].grade@ == grade@);
                    }
                    if exists|k: int| 0 <= k < i + 1 && #[trigger] rows@[k].grade@ == grade@ && rows@[k].day_of_week == d {
                        let k = choose|k: int| 0 <= k < i + 1 && #[trigger] rows@[k].grade@ == grade@ && rows@[k].day_of_week == d;
                        if k < i {
                            assert(before.contains(d));
                        }
                    }
                }
            }
        } else {
            proof {
                assert forall|d: i64| days@.contains(d) <==> exists|k: int|
                    0 <= k < i + 1 && #[trigger] rows@[k].grade@ == grade@ && rows@[k].day_of_week == d by {
                    if exists|k: int| 0 <= k < i + 1 && #[trigger] rows@[k].grade@ == grade@ && rows@[k].day_of_week == d {
                        let k = choose|k: int| 0 <= k < i + 1 && #[trigger] rows@[k].grade@ == grade@ && rows@[k].day_of_week == d;
                        assert(k < i);
                    }
                }
            }
        }
        i += 1;
    }
    let mut count: i64 = 0;
    let mut j: usize = 0;
    while j < student_grades.len()
        invariant
            j <= student_grades@.len() <= i64::MAX,
            count == grade_count(student_grades@.take(j as int), grade@),
        decreases student_grades@.len() - j,
    {
        proof {
            let t = student_grades@.take(j + 1);
            assert(t.drop_last() =~= student_grades@.take(j as int));
            lemma_grade_count_bounds(student_grades@.take(j as int), grade@);
        }
        if str_eq(student_grades[j].as_str(), grade.as_str()) {
            count = count + 1;
        }
        j += 1;
    }
    assert(student_grades@.take(student_grades@.len() as int) =~= student_grades@);
    ClassDays { grade: grade.clone(), days, student_count: count }
}

// ---------------------------------------------------------------------------
// Other terms and warnings
// ---------------------------------------------------------------------------

/// The terms other than `term`, in order.
pub open spec fn terms_other_than(terms: Seq<String>, term: Seq<char>) -> Seq<Seq<char>>
    decreases terms.len(),
{
    if terms.len() == 0 {
        Seq::empty()
    } else {
        let rest = terms_other_than(terms.drop_last(), term);
        if terms.last()@ != term {
            rest.push(terms.last()@)
        } else {
            rest
        }
    }
}

pub fn other_terms(terms: &Vec<String>, term: &str) -> (r: Vec<String>)
    ensures
        texts_of(r@) == terms_other_than(terms@, term@),
{
    let mut out: Vec<String> = Vec::new();
    let mut i: usize = 0;
    while i < terms.len()
        invariant
            i <= terms@.len(),
            texts_of(out@) == terms_other_than(terms@.take(i as int), term@),
        decreases terms@.len() - i,
    {
        proof {
            let t = terms@.take(i + 1);
            assert(t.drop_last() =~= terms@.take(i as int));
            assert(t.last() == terms@[i as int]);
        }
        if !str_eq(terms[i].as_str(), term) {
            let ghost before = texts_of(out@);
            let c = terms[i].clone();
            out.push(c);
            assert(texts_of(out@) =~= before.push(terms@[i as int]@));
        }
        i += 1;
    }
    assert(terms@.take(terms@.len() as int) =~= terms@);
    out
}

/// Teachers with no free hour.
pub open spec fn without_slots(ts: Seq<AvailabilityTeacher>) -> int
    decreases ts.len(),
{
    if ts.len() == 0 {
        0
    } else {
        without_slots(ts.drop_last()) + if ts.last().free_count == 0 {
            1int
        } else {
            0int
        }
    }
}

/// Classes with no workplace day.
pub open spec fn without_days(cs: Seq<ClassDays>) -> int
    decreases cs.len(),
{
    if cs.len() == 0 {
        0
    } else {
        without_days(cs.drop_last()) + if cs.last().days@.len() == 0 {
            1int
        } else {
            0int
        }
    }
}

/// The warnings of the availability screen, in order: no active teacher,
/// teachers without free hours, no class, classes without workplace days.
pub open spec fn availability_warning_texts(ts: Seq<AvailabilityTeacher>, cs: Seq<ClassDays>) -> Seq<Seq<char>> {
    let n_slots = without_slots(ts);
    let n_days = without_days(cs);
    (if ts.len() == 0 {
        seq!["Aktif öğretmen yok. Önce Öğretmenler ekranından öğretmen ekleyin."@]
    } else {
        Seq::empty()
    }) + (if n_slots > 0 {
        seq![decimal(n_slots) + " öğretmenin boş saati girilmemiş; bu öğretmenlere işletme atanamaz."@]
    } else {
        Seq::empty()
    }) + (if cs.len() == 0 {
        seq!["Bu dönemde öğrenci kaydı yok. Önce CSV içe aktarın."@]
    } else {
        Seq::empty()
    }) + (if n_days > 0 {
        seq![decimal(n_days) + " sınıfın işletme günü tanımlanmamış; o sınıfın öğrencilerinin bulunduğu işletmeler dağıtıma giremez."@]
    } else {
        Seq::empty()
    })
}

proof fn lemma_without_slots_bounds(ts: Seq<AvailabilityTeacher>)
    ensures
        0 <= without_slots(ts) <= ts.len(),
    decreases ts.len(),
{
    if ts.len() > 0 {
        lemma_without_slots_bounds(ts.drop_last());
    }
}

proof fn lemma_without_days_bounds(cs: Seq<ClassDays>)
    ensures
        0 <= without_days(cs) <= cs.len(),
    decreases cs.len(),
{
    if cs.len() > 0 {
        lemma_without_days_bounds(cs.drop_last());
    }
}

pub fn availability_warnings(ts: &Vec<AvailabilityTeacher>, cs: &Vec<ClassDays>) -> (w: Vec<String>)
    ensures
        texts_of(w@) == availability_warning_texts(ts@, cs@),
{
    let mut n_slots: u64 = 0;
    let mut i: usize = 0;
    while i < ts.len()
        invariant
            i <= ts@.len(),
            n_slots == without_slots(ts@.take(i as int)),
        decreases ts@.len() - i,
    {
        proof {
            let t = ts@.take(i + 1);
            assert(t.drop_last() =~= ts@.take(i as int));
            lemma_without_slots_bounds(ts@.take(i as int));
        }
        if ts[i].free_count == 0 {
            n_slots = n_slots + 1;
        }
        i += 1;
    }
    assert(ts@.take(ts@.len() as int) =~= ts@);
    let mut n_days: u64 = 0;
    let mut j: usize = 0;
    while j < cs.len()
        invariant
            j <= cs@.len(),
            n_days == without_days(cs@.take(j as int)),
        decreases cs@.len() - j,
    {
        proof {
            let t = cs@.take(j + 1);
            assert(t.drop_last() =~= cs@.take(j as int));
            lemma_without_days_bounds(cs@.take(j as int));
        }
        if cs[j].days.len() == 0 {
            n_days = n_days + 1;
        }
        j += 1;
    }
    assert(cs@.take(cs@.len() as int) =~= cs@);
    let mut out: Vec<String> = Vec::new();
    if ts.len() == 0 {
        out.push(string_of("Aktif öğretmen yok. Önce Öğretmenler ekranından öğretmen ekleyin."));
    }
    let ghost w1 = texts_of(out@);
    if n_slots > 0 {
        let n = count_string(n_slots);
        out.push(concat(n.as_str(), " öğretmenin boş saati girilmemiş; bu öğretmenlere işletme atanamaz."));
    }
    let ghost w2 = texts_of(out@);
    if cs.len() == 0 {
        out.push(string_of("Bu dönemde öğrenci kaydı yok. Önce CSV içe aktarın."));
    }
    let ghost w3 = texts_of(out@);
    if n_days > 0 {
        let n = count_string(n_days);
        out.push(
            concat(
                n.as_str(),
                " sınıfın işletme günü tanımlanmamış; o sınıfın öğrencilerinin bulunduğu işletmeler dağıtıma giremez.",
            ),
        );
    }
    assert(texts_of(out@) =~= availability_warning_texts(ts@, cs@));
    out
}

// ---------------------------------------------------------------------------
// The board
// ---------------------------------------------------------------------------

/// The screen rows of `teachers` sorted stably by name: `order` lists the
/// teachers in the order the rows show them.
pub open spec fn teachers_by_name(rows: Seq<AvailabilityTeacher>, teachers: Seq<Teacher>, slots: Seq<AvailabilitySlot>) -> bool {
    exists|order: Seq<usize>|
        #![trigger is_permutation(order, teachers.len() as int)]
        {
            &&& is_permutation(order, teachers.len() as int)
            &&& sorts_stably(order, name_keys(teachers))
            &&& rows.len() == teachers.len()
            &&& forall|k: int| 0 <= k < rows.len() ==> availability_row_ok(rows[k], teachers[#[trigger] order[k] as int], slots)
        }
}

/// The sort keys of teachers: their shown name.
pub open spec fn name_keys(teachers: Seq<Teacher>) -> Seq<SortKey> {
    Seq::new(teachers.len(), |i: int| (full_name(teachers[i].first_name@, teachers[i].last_name@), Seq::<char>::empty()))
}

/// The availability screen from what was read for the term: the active
/// teachers, all free hours, the grade of every student, the class-day rows
/// and all known terms.
pub fn build_availability_board(
    term: &String,
    settings: &Settings,
    teachers: &Vec<Teacher>,
    slots: &Vec<AvailabilitySlot>,
    student_grades: &Vec<String>,
    rows: &Vec<ClassWorkplaceDay>,
    terms: &Vec<String>,
) -> (b: AvailabilityBoard)
    requires
        slots@.len() <= i64::MAX,
        student_grades@.len() <= i64::MAX,
    ensures
        b.term@ == term@,
        b.day_start_hour == hour_setting(settings.value("day_start_hour"@), 8),
        b.day_end_hour == hour_setting(settings.value("day_end_hour"@), 17),
        teachers_by_name(b.teachers@, teachers@, slots@),
        increasing_texts(Seq::new(b.classes@.len(), |i: int| b.classes@[i].grade)),
        forall|g: Seq<char>|
            (exists|i: int| 0 <= i < b.classes@.len() && #[trigger] b.classes@[i].grade@ == g) <==> (has_text(
                student_grades@,
                g,
            ) || has_day_row(rows@, g)),
        forall|i: int| 0 <= i < b.classes@.len() ==> class_row_ok(#[trigger] b.classes@[i], b.classes@[i].grade@, student_grades@, rows@),
        texts_of(b.other_terms@) == terms_other_than(terms@, term@),
        texts_of(b.warnings@) == availability_warning_texts(b.teachers@, b.classes@),
{
    let day_start_hour = parse_hour_setting(settings, "day_start_hour", 8);
    let day_end_hour = parse_hour_setting(settings, "day_end_hour", 17);
    proof {
        reveal_strlit("day_start_hour");
        reveal_strlit("day_end_hour");
    }

    // Teachers, sorted by name (stable).
    let mut unsorted: Vec<AvailabilityTeacher> = Vec::new();
    let mut keys: Vec<(Vec<char>, Vec<char>)> = Vec::new();
    let mut i: usize = 0;
    while i < teachers.len()
        invariant
            i <= teachers@.len(),
            slots@.len() <= i64::MAX,
            unsorted@.len() == i,
            keys@.len() == i,
            forall|k: int| 0 <= k < i ==> availability_row_ok(#[trigger] unsorted@[k], teachers@[k], slots@),
            forall|k: int| 0 <= k < i ==> #[trigger] key_at(keys@, k) == name_keys(teachers@)[k],
        decreases teachers@.len() - i,
    {
        let row = availability_teacher(&teachers[i], slots);
        let name_chars = chars_of(row.teacher_name.as_str());
        let ghost before = keys@;
        keys.push((name_chars, Vec::new()));
        unsorted.push(row);
        proof {
            assert forall|k: int| 0 <= k < i + 1 implies #[trigger] key_at(keys@, k) == name_keys(teachers@)[k] by {
                if k < i {
                    assert(keys@[k] == before[k]);
                    assert(key_at(before, k) == key_at(keys@, k));
                } else {
                    assert(keys@[k].1@ =~= Seq::<char>::empty());
                }
            }
        }
        i += 1;
    }
    let order = stable_order(&keys);
    proof {
        assert(keys_view(keys@) =~= name_keys(teachers@)) by {
            assert forall|k: int| 0 <= k < keys@.len() implies keys_view(keys@)[k] == name_keys(teachers@)[k] by {
                assert(key_at(keys@, k) == name_keys(teachers@)[k]);
            }
        }
    }
    let mut sorted: Vec<AvailabilityTeacher> = Vec::new();
    let mut m: usize = 0;
    while m < order.len()
        invariant
            m <= order@.len(),
            is_permutation(order@, teachers@.len() as int),
            unsorted@.len() == teachers@.len(),
            forall|k: int| 0 <= k < unsorted@.len() ==> availability_row_ok(#[trigger] unsorted@[k], teachers@[k], slots@),
            sorted@.len() == m,
            forall|q: int| 0 <= q < m ==> availability_row_ok(#[trigger] sorted@[q], teachers@[order@[q] as int], slots@),
        decreases order@.len() - m,
    {
        let idx = order[m];
        let r = copy_teacher_row(&unsorted[idx]);
        sorted.push(r);
        m += 1;
    }

    // Classes.
    let grades = class_grades(student_grades, rows);
    let mut classes: Vec<ClassDays> = Vec::new();
    let mut g: usize = 0;
    while g < grades.len()
        invariant
            g <= grades@.len(),
            student_grades@.len() <= i64::MAX,
            classes@.len() == g,
            forall|k: int| 0 <= k < g ==> (#[trigger] classes@[k]).grade@ == grades@[k]@,
            forall|k: int| 0 <= k < g ==> class_row_ok(#[trigger] classes@[k], classes@[k].grade@, student_grades@, rows@),
        decreases grades@.len() - g,
    {
        let c = class_days_for(&grades[g], student_grades, rows);
        classes.push(c);
        g += 1;
    }
    proof {
        let gs = Seq::new(classes@.len(), |i: int| classes@[i].grade);
        assert forall|a: int, b: int| 0 <= a < b < gs.len() implies crate::text::seq_lt(#[trigger] gs[a]@, #[trigger] gs[b]@) by {
            assert(gs[a]@ == grades@[a]@);
            assert(gs[b]@ == grades@[b]@);
        }
        assert forall|x: Seq<char>|
            (exists|i: int| 0 <= i < classes@.len() && #[trigger] classes@[i].grade@ == x) <==> (has_text(
                student_grades@,
                x,
            ) || has_day_row(rows@, x)) by {
            if exists|i: int| 0 <= i < classes@.len() && #[trigger] classes@[i].grade@ == x {
                let i = choose|i: int| 0 <= i < classes@.len() && #[trigger] classes@[i].grade@ == x;
                assert(grades@[i]@ == x);
            }
            if has_text(grades@, x) {
                let i = choose|i: int| 0 <= i < grades@.len() && #[trigger] grades@[i]@ == x;
                assert(classes@[i].grade@ == x);
            }
        }
    }

    let others = other_terms(terms, term.as_str());
    let warnings = availability_warnings(&sorted, &classes);
    AvailabilityBoard {
        term: term.clone(),
        teachers: sorted,
        classes,
        day_start_hour,
        day_end_hour,
        other_terms: others,
        warnings,
    }
}

fn copy_strings(v: &Vec<String>) -> (c: Vec<String>)
    ensures
        c@ == v@,
{
    let mut out: Vec<String> = Vec::new();
    let mut i: usize = 0;
    while i < v.len()
        invariant
            i <= v@.len(),
            out@ == v@.take(i as int),
        decreases v@.len() - i,
    {
        out.push(v[i].clone());
        i += 1;
        assert(out@ =~= v@.take(i as int));
    }
    assert(v@.take(v@.len() as int) =~= v@);
    out
}

fn copy_teacher_row(r: &AvailabilityTeacher) -> (c: AvailabilityTeacher)
    ensures
        c.teacher_id == r.teacher_id,
        c.teacher_name == r.teacher_name,
        c.free_slots@ == r.free_slots@,
        c.free_count == r.free_count,
{
    AvailabilityTeacher {
        teacher_id: r.teacher_id,
        teacher_name: r.teacher_name.clone(),
        free_slots: copy_strings(&r.free_slots),
        free_count: r.free_count,
    }
}

// ---------------------------------------------------------------------------
// Saving class days and copying schedules
// ---------------------------------------------------------------------------

/// The days of a class as they are stored: the grade trimmed, the days each
/// once and increasing. A blank grade is refused first, then any day outside
/// Monday (1) to Friday (5).
pub fn check_class_days(grade: &str, days: &Vec<i64>) -> (r: Result<(String, Vec<i64>), AppError>)
    ensures
        all_space(grade@) ==> rejects(r, "Sınıf boş olamaz"@),
        !all_space(grade@) && (exists|i: int| 0 <= i < days@.len() && !(1 <= #[trigger] days@[i] <= 5)) ==> rejects(
            r,
            "Gün Pazartesi ile Cuma arasında olmalı"@,
        ),
        !all_space(grade@) && (forall|i: int| 0 <= i < days@.len() ==> 1 <= #[trigger] days@[i] <= 5) ==> (r matches Ok(
            out,
        ) && out.0@ == trim(grade@) && increasing_days(out.1@) && forall|d: i64| out.1@.contains(d) <==> days@.contains(d)),
{
    if is_blank(grade) {
        return Err(validation("Sınıf boş olamaz"));
    }
    let mut i: usize = 0;
    while i < days.len()
        invariant
            i <= days@.len(),
            !all_space(grade@),
            forall|k: int| 0 <= k < i ==> 1 <= #[trigger] days@[k] <= 5,
        decreases days@.len() - i,
    {
        if !(1 <= days[i] && days[i] <= 5) {
            return Err(validation("Gün Pazartesi ile Cuma arasında olmalı"));
        }
        i += 1;
    }
    let mut unique: Vec<i64> = Vec::new();
    let mut j: usize = 0;
    while j < days.len()
        invariant
            j <= days@.len(),
            increasing_days(unique@),
            forall|d: i64| unique@.contains(d) <==> days@.take(j as int).contains(d),
        decreases days@.len() - j,
    {
        insert_day(&mut unique, days[j]);
        proof {
            let t1 = days@.take(j + 1);
            let t0 = days@.take(j as int);
            assert(t1 =~= t0.push(days@[j as int]));
            assert forall|d: i64| t1.contains(d) <==> (t0.contains(d) || d == days@[j as int]) by {
                if t1.contains(d) {
                    let k = choose|k: int| 0 <= k < t1.len() && #[trigger] t1[k] == d;
                    if k < j {
                        assert(t0[k] == d);
                    }
                }
                if t0.contains(d) {
                    let k = choose|k: int| 0 <= k < t0.len() && #[trigger] t0[k] == d;
                    assert(t1[k] == d);
                }
                if d == days@[j as int] {
                    assert(t1[j as int] == d);
                }
            }
        }
        j += 1;
    }
    assert(days@.take(days@.len() as int) =~= days@);
    Ok((trimmed(grade), unique))
}

/// Copying a schedule is refused when the source term is the active term.
pub fn check_copy_source(from_term: &str, term: &str) -> (r: Result<(), AppError>)
    ensures
        from_term@ == term@ ==> rejects(r, "Kaynak ve hedef dönem aynı olamaz"@),
        from_term@ != term@ ==> r is Ok,
{
    if str_eq(from_term, term) {
        return Err(validation("Kaynak ve hedef dönem aynı olamaz"));
    }
    Ok(())
}

/// The free hours of a term are copied only when the target has none and
/// the source has some; an existing schedule is never overwritten.
pub fn schedule_copy_allowed(target_slot_count: usize, source_slot_count: usize) -> (b: bool)
    ensures
        b == (target_slot_count == 0 && source_slot_count > 0),
{
    target_slot_count == 0 && source_slot_count > 0
}

} // verus!
