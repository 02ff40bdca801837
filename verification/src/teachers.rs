use vstd::prelude::*;
use crate::decimal::{decimal, with_number};
use crate::error::{rejects, validation, AppError};
use crate::model::{
    chief_hours, ChiefType, EmploymentType, NewTeacher, NewTeacherProfile, Teacher, TeacherLoad,
    TeacherWithCapacity, TeacherWithLoadAsOf,
};
use crate::text::{all_space, concat, is_blank, str_eq, texts_of};

verus! {

/// The chief duty a stored text names; anything unknown means no duty.
pub open spec fn chief_type_of(raw: Seq<char>) -> ChiefType {
    if raw == "department"@ {
        ChiefType::Department
    } else if raw == "workshop_lab"@ {
        ChiefType::WorkshopLab
    } else {
        ChiefType::NotChief
    }
}

/// The employment type a stored text names; anything unknown means tenured.
pub open spec fn employment_type_of(raw: Seq<char>) -> EmploymentType {
    if raw == "contracted"@ {
        EmploymentType::Contracted
    } else {
        EmploymentType::Tenured
    }
}

/// Reads the stored chief text: `department`, `workshop_lab`, else none.
pub fn parse_chief_type(raw: &str) -> (c: ChiefType)
    ensures
        c == chief_type_of(raw@),
{
    if str_eq(raw, "department") {
        ChiefType::Department
    } else if str_eq(raw, "workshop_lab") {
        ChiefType::WorkshopLab
    } else {
        ChiefType::NotChief
    }
}

/// Reads the stored employment text: `contracted`, else tenured.
pub fn parse_employment_type(raw: &str) -> (e: EmploymentType)
    ensures
        e == employment_type_of(raw@),
{
    if str_eq(raw, "contracted") {
        EmploymentType::Contracted
    } else {
        EmploymentType::Tenured
    }
}

/// The load of a teacher with no load row on the day: nothing, no chief duty.
pub fn zero_load() -> (l: TeacherLoad)
    ensures
        l.base_hours == 0,
        l.max_extra_hours == 0,
        l.other_extra_hours == 0,
        l.chief_type == ChiefType::NotChief,
        l.employment_type == EmploymentType::Tenured,
{
    TeacherLoad {
        base_hours: 0,
        max_extra_hours: 0,
        other_extra_hours: 0,
        chief_type: ChiefType::NotChief,
        employment_type: EmploymentType::Tenured,
    }
}

/// The identity part of a new teacher.
pub fn profile_from_input(input: &NewTeacher) -> (p: NewTeacherProfile)
    ensures
        p.first_name@ == input.first_name@,
        p.last_name@ == input.last_name@,
        p.registry_no@ == input.registry_no@,
        p.field@ == input.field@,
        p.branches.deep_view() == input.branches.deep_view(),
        p.is_active == input.is_active,
{
    NewTeacherProfile {
        first_name: input.first_name.clone(),
        last_name: input.last_name.clone(),
        registry_no: input.registry_no.clone(),
        field: input.field.clone(),
        branches: clone_strings(&input.branches),
        is_active: input.is_active,
    }
}

fn clone_strings(v: &Vec<String>) -> (r: Vec<String>)
    ensures
        r.deep_view() == v.deep_view(),
{
    let mut out: Vec<String> = Vec::new();
    let mut i: usize = 0;
    while i < v.len()
        invariant
            i <= v@.len(),
            out@.len() == i,
            forall|k: int| 0 <= k < i ==> #[trigger] out@[k]@ == v@[k]@,
        decreases v@.len() - i,
    {
        out.push(v[i].clone());
        i += 1;
    }
    assert(out.deep_view() =~= v.deep_view());
    out
}

/// The load part of a new teacher, its texts read as types.
pub fn load_from_input(input: &NewTeacher) -> (l: TeacherLoad)
    ensures
        l.base_hours == input.base_hours,
        l.max_extra_hours == input.max_extra_hours,
        l.other_extra_hours == input.other_extra_hours,
        l.chief_type == chief_type_of(input.chief_type@),
        l.employment_type == employment_type_of(input.employment_type@),
{
    TeacherLoad {
        base_hours: input.base_hours,
        max_extra_hours: input.max_extra_hours,
        other_extra_hours: input.other_extra_hours,
        chief_type: parse_chief_type(input.chief_type.as_str()),
        employment_type: parse_employment_type(input.employment_type.as_str()),
    }
}

/// Whether the entered load differs from the stored one in any field.
pub fn load_changed(current: &Teacher, input: &NewTeacher) -> (b: bool)
    ensures
        b == (current.base_hours != input.base_hours || current.max_extra_hours
            != input.max_extra_hours || current.other_extra_hours != input.other_extra_hours
            || current.chief_type@ != input.chief_type@ || current.employment_type@
            != input.employment_type@),
{
    current.base_hours != input.base_hours || current.max_extra_hours != input.max_extra_hours
        || current.other_extra_hours != input.other_extra_hours || !str_eq(
        current.chief_type.as_str(),
        input.chief_type.as_str(),
    ) || !str_eq(current.employment_type.as_str(), input.employment_type.as_str())
}

/// Checks the identity fields: names and field must not be blank.
pub fn validate_identity(input: &NewTeacher) -> (r: Result<(), AppError>)
    ensures
        all_space(input.first_name@) || all_space(input.last_name@) ==> rejects(
            r,
            "Ad ve soyad boş olamaz"@,
        ),
        !(all_space(input.first_name@) || all_space(input.last_name@)) && all_space(
            input.field@,
        ) ==> rejects(r, "Alan boş olamaz"@),
        !(all_space(input.first_name@) || all_space(input.last_name@) || all_space(
            input.field@,
        )) ==> r is Ok,
{
    if is_blank(input.first_name.as_str()) || is_blank(input.last_name.as_str()) {
        return Err(validation("Ad ve soyad boş olamaz"));
    }
    if is_blank(input.field.as_str()) {
        return Err(validation("Alan boş olamaz"));
    }
    Ok(())
}

/// The error for a teacher id that has no row.
pub fn not_found(id: i64) -> (e: AppError)
    ensures
        e matches AppError::NotFound(m) && m@ == "Öğretmen bulunamadı: "@ + decimal(id as int),
{
    AppError::NotFound(with_number("Öğretmen bulunamadı: ", id))
}

// ---------------------------------------------------------------------------
// The branches column (a JSON array of strings)
// ---------------------------------------------------------------------------

/// What `serde_json::from_str::<Vec<String>>` reads from a text: the list
/// of strings of a JSON array of strings, or nothing when the text is not
/// one.
pub uninterp spec fn json_string_list(raw: Seq<char>) -> Option<Seq<Seq<char>>>;

/// `serde_json::from_str::<Vec<String>>(raw)`, the error dropped.
#[verifier::external_body]
fn read_json_strings(raw: &str) -> (r: Option<Vec<String>>)
    ensures
        match r {
            Some(v) => json_string_list(raw@) == Some(texts_of(v@)),
            None => json_string_list(raw@) is None,
        },
{
    serde_json::from_str::<Vec<String>>(raw).ok()
}

/// The text `t` is a JSON array holding exactly the strings of `items`.
pub open spec fn encodes(t: Seq<char>, items: Seq<String>) -> bool {
    json_string_list(t) == Some(texts_of(items))
}

/// `r` is what reading the stored text `raw` gives: its strings when it is a
/// JSON array of strings, no branches otherwise.
pub open spec fn decodes(raw: Seq<char>, r: Seq<String>) -> bool {
    match json_string_list(raw) {
        Some(items) => texts_of(r) == items,
        None => r.len() == 0,
    }
}

/// `serde_json::to_string(items)`, or the text of the error. Writing a
/// list of strings does not fail (serde_json's writer into a `Vec` and its
/// string escaping return no error), and the text written reads back as the
/// same list (each string is written as a JSON string literal with its
/// escapes and read back unescaped).
#[verifier::external_body]
fn write_json_strings(items: &Vec<String>) -> (r: Result<String, String>)
    ensures
        r is Ok,
        r matches Ok(t) ==> encodes(t@, items@),
{
    serde_json::to_string(items).map_err(|e| e.to_string())
}

/// The branches stored as JSON. Writing them always succeeds.
pub fn encode_branches(branches: &Vec<String>) -> (r: Result<String, AppError>)
    ensures
        r is Ok,
        r matches Ok(t) ==> encodes(t@, branches@),
{
    match write_json_strings(branches) {
        Ok(t) => Ok(t),
        Err(t) => Err(AppError::Validation(concat("Dallar kaydedilemedi: ", t.as_str()))),
    }
}

/// The stored branches; a column that is not a JSON array of strings reads
/// as no branches, so a damaged row does not break reading.
pub fn decode_branches(raw: &str) -> (r: Vec<String>)
    ensures
        decodes(raw@, r@),
{
    match read_json_strings(raw) {
        Some(v) => v,
        None => Vec::new(),
    }
}

/// Branches written by `encode_branches` are read back unchanged by
/// `decode_branches`: whenever `stored` is what the first gives for
/// `branches` and `read` is what the second gives for `stored`, `read`
/// holds the same strings in the same order.
pub proof fn lemma_branches_round_trip(branches: Seq<String>, stored: Seq<char>, read: Seq<String>)
    requires
        encodes(stored, branches),
        decodes(stored, read),
    ensures
        texts_of(read) == texts_of(branches),
{
}

// ---------------------------------------------------------------------------
// Loads on a day
// ---------------------------------------------------------------------------

/// A load row of the projection that is valid on the day read.
#[derive(Debug, Clone)]
pub struct LoadRow {
    pub teacher_id: i64,
    pub base_hours: i64,
    pub max_extra_hours: i64,
    pub other_extra_hours: i64,
    pub chief_type: String,
    pub employment_type: String,
}

/// The load a row describes, its texts read as the enums.
pub open spec fn load_of(r: LoadRow) -> TeacherLoad {
    TeacherLoad {
        base_hours: r.base_hours,
        max_extra_hours: r.max_extra_hours,
        other_extra_hours: r.other_extra_hours,
        chief_type: chief_type_of(r.chief_type@),
        employment_type: employment_type_of(r.employment_type@),
    }
}

/// The load of `teacher`: from its last row, or nothing when it has none.
pub open spec fn load_for(rows: Seq<LoadRow>, teacher: i64) -> TeacherLoad
    decreases rows.len(),
{
    if rows.len() == 0 {
        TeacherLoad {
            base_hours: 0,
            max_extra_hours: 0,
            other_extra_hours: 0,
            chief_type: ChiefType::NotChief,
            employment_type: EmploymentType::Tenured,
        }
    } else if rows.last().teacher_id == teacher {
        load_of(rows.last())
    } else {
        load_for(rows.drop_last(), teacher)
    }
}

fn load_of_row(r: &LoadRow) -> (l: TeacherLoad)
    ensures
        l == load_of(*r),
{
    TeacherLoad {
        base_hours: r.base_hours,
        max_extra_hours: r.max_extra_hours,
        other_extra_hours: r.other_extra_hours,
        chief_type: parse_chief_type(r.chief_type.as_str()),
        employment_type: parse_employment_type(r.employment_type.as_str()),
    }
}

/// The load of a teacher on the day read.
pub fn load_for_teacher(rows: &Vec<LoadRow>, teacher: i64) -> (l: TeacherLoad)
    ensures
        l == load_for(rows@, teacher),
{
    let mut i = rows.len();
    assert(rows@.take(i as int) =~= rows@);
    while i > 0
        invariant
            i <= rows@.len(),
            load_for(rows@, teacher) == load_for(rows@.take(i as int), teacher),
        decreases i,
    {
        proof {
            let t = rows@.take(i as int);
            assert(t.last() == rows@[i - 1]);
            assert(t.drop_last() =~= rows@.take(i - 1));
        }
        if rows[i - 1].teacher_id == teacher {
            return load_of_row(&rows[i - 1]);
        }
        i -= 1;
    }
    zero_load()
}

/// Every teacher with its load on the day read; a teacher without a load
/// row has the zero load.
pub fn with_loads(teachers: Vec<Teacher>, rows: &Vec<LoadRow>) -> (r: Vec<TeacherWithLoadAsOf>)
    ensures
        r@.len() == teachers@.len(),
        forall|k: int| 0 <= k < r@.len() ==> (#[trigger] r@[k]).teacher == teachers@[k] && r@[k].load == load_for(
            rows@,
            teachers@[k].id,
        ),
{
    let mut out: Vec<TeacherWithLoadAsOf> = Vec::new();
    let ghost all = teachers@;
    let mut rest = teachers;
    let n = rest.len();
    let mut k: usize = 0;
    while k < n
        invariant
            n == all.len(),
            k <= n,
            rest@ == all.skip(k as int),
            out@.len() == k,
            forall|q: int| 0 <= q < k ==> (#[trigger] out@[q]).teacher == all[q] && out@[q].load == load_for(rows@, all[q].id),
        decreases n - k,
    {
        let t = rest.remove(0);
        assert(rest@ =~= all.skip(k + 1));
        let load = load_for_teacher(rows, t.id);
        out.push(TeacherWithLoadAsOf { teacher: t, load });
        k += 1;
    }
    out
}

/// A teacher with its chief hours, the statutory ceiling and the capacity
/// computed for it.
pub fn with_capacity(entry: TeacherWithLoadAsOf, statutory_cap: i64, capacity: i64) -> (r: TeacherWithCapacity)
    ensures
        r.teacher == entry.teacher,
        r.chief_hours == chief_hours(entry.load.chief_type),
        r.statutory_cap == statutory_cap,
        r.capacity == capacity,
{
    let chief = entry.load.chief_type.weekly_hours();
    TeacherWithCapacity { teacher: entry.teacher, chief_hours: chief, statutory_cap, capacity }
}

} // verus!
