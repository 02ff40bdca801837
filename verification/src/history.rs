use vstd::prelude::*;
use crate::decimal::{count_string, decimal};
use crate::error::AppError;
use crate::text::{concat, string_of};

verus! {

// ---------------------------------------------------------------------------
// Change log
// ---------------------------------------------------------------------------

/// The id a `caused_by` index of a planned event points to: events of one
/// change set may only point to events inserted before them in the same
/// set. An index past what was inserted is a store error.
pub fn resolve_caused_by(already_inserted: &Vec<i64>, caused_by: Option<usize>) -> (r: Result<Option<i64>, AppError>)
    ensures
        caused_by is None ==> r == Ok::<Option<i64>, AppError>(None),
        caused_by is Some && caused_by->0 < already_inserted@.len() ==> r == Ok::<Option<i64>, AppError>(
            Some(already_inserted@[caused_by->0 as int]),
        ),
        caused_by is Some && caused_by->0 >= already_inserted@.len() ==> (r matches Err(
            AppError::Database(m),
        ) && m@ == "caused_by indeksi ("@ + decimal(caused_by->0 as int)
            + ") henüz eklenmemiş bir olaya işaret ediyor."@),
{
    match caused_by {
        None => Ok(None),
        Some(index) => {
            if index < already_inserted.len() {
                Ok(Some(already_inserted[index]))
            } else {
                let n = count_string(index as u64);
                let a = concat("caused_by indeksi (", n.as_str());
                Err(AppError::Database(concat(a.as_str(), ") henüz eklenmemiş bir olaya işaret ediyor.")))
            }
        },
    }
}

// ---------------------------------------------------------------------------
// Projection checks
// ---------------------------------------------------------------------------

/// A mismatch between a projection table and the state folded from the log.
#[derive(Debug, Clone)]
pub struct ProjectionDrift {
    pub table: String,
    pub subject_id: i64,
    pub detail: String,
}

pub fn drift(table: &str, subject_id: i64, detail: String) -> (d: ProjectionDrift)
    ensures
        d.table@ == table@,
        d.subject_id == subject_id,
        d.detail == detail,
{
    ProjectionDrift { table: string_of(table), subject_id, detail }
}

/// One drift when the number of expected intervals differs from the number
/// of stored rows, none when they agree.
pub fn count_mismatch(table: &str, subject_id: i64, expected: usize, actual: usize) -> (r: Option<ProjectionDrift>)
    ensures
        expected == actual ==> r is None,
        expected != actual ==> (r matches Some(d) && d.table@ == table@ && d.subject_id == subject_id
            && d.detail@ == "beklenen "@ + decimal(expected as int) + " aralık, tabloda "@ + decimal(
            actual as int,
        ) + " satır var"@),
{
    if expected == actual {
        None
    } else {
        let e = count_string(expected as u64);
        let a = count_string(actual as u64);
        let t1 = concat("beklenen ", e.as_str());
        let t2 = concat(t1.as_str(), " aralık, tabloda ");
        let t3 = concat(t2.as_str(), a.as_str());
        let detail = concat(t3.as_str(), " satır var");
        Some(drift(table, subject_id, detail))
    }
}

} // verus!
