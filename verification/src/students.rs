use vstd::prelude::*;
use crate::decimal::{decimal, with_number};
use crate::error::{rejects, validation, AppError};
use crate::model::{NewStudent, Student};
use crate::text::{all_space, collapse, collapse_spaces, concat, is_blank, lowercase, str_eq, to_lowercase};

verus! {

/// Why a student input is refused, if it is: blank names first, then a
/// blank grade, then a blank branch.
pub open spec fn student_problem(input: NewStudent) -> Option<Seq<char>> {
    if all_space(input.first_name@) || all_space(input.last_name@) {
        Some("Ad ve soyad boş olamaz"@)
    } else if all_space(input.grade@) {
        Some("Sınıf boş olamaz"@)
    } else if all_space(input.branch@) {
        Some("Dal boş olamaz"@)
    } else {
        None
    }
}

/// Checks a student input at the boundary.
pub fn validate(input: &NewStudent) -> (r: Result<(), AppError>)
    ensures
        student_problem(*input) matches Some(msg) ==> rejects(r, msg),
        student_problem(*input) is None ==> r is Ok,
{
    if is_blank(input.first_name.as_str()) || is_blank(input.last_name.as_str()) {
        return Err(validation("Ad ve soyad boş olamaz"));
    }
    if is_blank(input.grade.as_str()) {
        return Err(validation("Sınıf boş olamaz"));
    }
    if is_blank(input.branch.as_str()) {
        return Err(validation("Dal boş olamaz"));
    }
    Ok(())
}

/// The error for a student id that does not exist.
pub fn not_found(id: i64) -> (e: AppError)
    ensures
        e matches AppError::NotFound(m) && m@ == "Öğrenci bulunamadı: "@ + decimal(id as int),
{
    AppError::NotFound(with_number("Öğrenci bulunamadı: ", id))
}

/// A text as it is compared: lowercased, words joined by single spaces.
pub open spec fn norm(s: Seq<char>) -> Seq<char> {
    collapse(lowercase(s))
}

/// Lowercases and collapses whitespace.
pub fn normalize(value: &str) -> (r: String)
    ensures
        r@ == norm(value@),
{
    let lower = to_lowercase(value);
    collapse_spaces(lower.as_str())
}

/// The normalized text of an optional value, kept only when not empty.
pub open spec fn present(value: Option<String>) -> Option<Seq<char>> {
    match value {
        Some(v) => if norm(v@).len() > 0 {
            Some(norm(v@))
        } else {
            None
        },
        None => None,
    }
}

/// The normalized value when it is present and not empty after
/// normalizing.
pub fn non_empty(value: Option<&String>) -> (r: Option<String>)
    ensures
        match value {
            Some(v) => match r {
                Some(n) => norm(v@).len() > 0 && n@ == norm(v@),
                None => norm(v@).len() == 0,
            },
            None => r is None,
        },
{
    match value {
        Some(v) => {
            let n = normalize(v.as_str());
            if n.as_str().is_empty() {
                None
            } else {
                Some(n)
            }
        },
        None => None,
    }
}

/// The identity of a student without a number: the normalized first name,
/// last name, grade and branch joined by `|`.
pub open spec fn fallback_identity(first_name: Seq<char>, last_name: Seq<char>, grade: Seq<char>, branch: Seq<char>) -> Seq<char> {
    norm(first_name) + "|"@ + norm(last_name) + "|"@ + norm(grade) + "|"@ + norm(branch)
}

pub fn fallback_key(first_name: &str, last_name: &str, grade: &str, branch: &str) -> (r: String)
    ensures
        r@ == fallback_identity(first_name@, last_name@, grade@, branch@),
{
    let f = normalize(first_name);
    let l = normalize(last_name);
    let g = normalize(grade);
    let b = normalize(branch);
    let a1 = concat(f.as_str(), "|");
    let a2 = concat(a1.as_str(), l.as_str());
    let a3 = concat(a2.as_str(), "|");
    let a4 = concat(a3.as_str(), g.as_str());
    let a5 = concat(a4.as_str(), "|");
    concat(a5.as_str(), b.as_str())
}

/// `row` is the same student as `candidate`: by the student number when the
/// candidate has one, otherwise a row without a number whose fallback
/// identity matches (a numbered row never matches a candidate without one).
pub open spec fn same_student(row: Student, candidate: NewStudent) -> bool {
    match present(candidate.student_no) {
        Some(no) => present(row.student_no) == Some(no),
        None => present(row.student_no) is None && fallback_identity(
            row.first_name@,
            row.last_name@,
            row.grade@,
            row.branch@,
        ) == fallback_identity(
            candidate.first_name@,
            candidate.last_name@,
            candidate.grade@,
            candidate.branch@,
        ),
    }
}

fn copy_option(v: &Option<String>) -> (c: Option<String>)
    ensures
        c == *v,
{
    match v {
        Some(s) => Some(s.clone()),
        None => None,
    }
}

fn copy_student(s: &Student) -> (c: Student)
    ensures
        c == *s,
{
    Student {
        id: s.id,
        first_name: s.first_name.clone(),
        last_name: s.last_name.clone(),
        student_no: copy_option(&s.student_no),
        grade: s.grade.clone(),
        branch: s.branch.clone(),
        company_id: s.company_id,
        submitted_at: copy_option(&s.submitted_at),
        term: s.term.clone(),
    }
}

fn matches_candidate(row: &Student, candidate_no: &Option<String>, key: &String, candidate: &NewStudent) -> (b: bool)
    requires
        match present(candidate.student_no) {
            Some(no) => *candidate_no matches Some(c) && c@ == no,
            None => candidate_no is None,
        },
        key@ == fallback_identity(candidate.first_name@, candidate.last_name@, candidate.grade@, candidate.branch@),
    ensures
        b == same_student(*row, *candidate),
{
    let row_no = non_empty(row.student_no.as_ref());
    match candidate_no {
        Some(c) => match row_no {
            Some(r) => str_eq(r.as_str(), c.as_str()),
            None => false,
        },
        None => {
            match row_no {
                Some(_) => false,
                None => {
                    let k = fallback_key(
                        row.first_name.as_str(),
                        row.last_name.as_str(),
                        row.grade.as_str(),
                        row.branch.as_str(),
                    );
                    str_eq(k.as_str(), key.as_str())
                },
            }
        },
    }
}

/// The first stored student that is the same student as `candidate`, if
/// any.
pub fn find_duplicate_among(rows: &[Student], candidate: &NewStudent) -> (r: Option<Student>)
    ensures
        match r {
            Some(s) => exists|i: int|
                0 <= i < rows@.len() && same_student(#[trigger] rows@[i], *candidate) && s == rows@[i]
                    && forall|j: int| 0 <= j < i ==> !same_student(#[trigger] rows@[j], *candidate),
            None => forall|i: int| 0 <= i < rows@.len() ==> !same_student(#[trigger] rows@[i], *candidate),
        },
{
    let candidate_no = non_empty(candidate.student_no.as_ref());
    let key = fallback_key(
        candidate.first_name.as_str(),
        candidate.last_name.as_str(),
        candidate.grade.as_str(),
        candidate.branch.as_str(),
    );
    let mut i: usize = 0;
    while i < rows.len()
        invariant
            i <= rows@.len(),
            match present(candidate.student_no) {
                Some(no) => candidate_no matches Some(c) && c@ == no,
                None => candidate_no is None,
            },
            key@ == fallback_identity(candidate.first_name@, candidate.last_name@, candidate.grade@, candidate.branch@),
            forall|j: int| 0 <= j < i ==> !same_student(#[trigger] rows@[j], *candidate),
        decreases rows@.len() - i,
    {
        if matches_candidate(&rows[i], &candidate_no, &key, candidate) {
            return Some(copy_student(&rows[i]));
        }
        i += 1;
    }
    None
}

} // verus!
