use vstd::prelude::*;
use crate::decimal::{count_string, decimal};
use crate::error::{rejects, AppError};
use crate::terms::{date_text, day_text, in_calendar};
use crate::text::concat;

verus! {

/// The day a read works on: the open rows of the dated projections, or the
/// rows valid on a given day (a day number as chrono counts days).
#[derive(Debug, Clone, Copy, PartialEq, Eq, Structural)]
pub enum ReadAt {
    Latest,
    AsOf(i32),
}

/// The SQL condition of a dated projection, columns prefixed by `alias`;
/// `param` is the number of the next free `?N` placeholder, which `AsOf`
/// uses twice for its single value.
pub open spec fn condition_text(r: ReadAt, alias: Seq<char>, param: int) -> Seq<char> {
    match r {
        ReadAt::Latest => alias + "valid_to IS NULL"@,
        ReadAt::AsOf(_) => alias + "valid_from <= ?"@ + decimal(param) + " AND ("@ + alias + "valid_to IS NULL OR ?"@
            + decimal(param) + " < "@ + alias + "valid_to)"@,
    }
}

impl ReadAt {
    pub fn condition_with_alias(&self, alias: &str, param: usize) -> (c: String)
        ensures
            c@ == condition_text(*self, alias@, param as int),
    {
        match self {
            ReadAt::Latest => concat(alias, "valid_to IS NULL"),
            ReadAt::AsOf(_) => {
                let p = count_string(param as u64);
                let t1 = concat(alias, "valid_from <= ?");
                let t2 = concat(t1.as_str(), p.as_str());
                let t3 = concat(t2.as_str(), " AND (");
                let t4 = concat(t3.as_str(), alias);
                let t5 = concat(t4.as_str(), "valid_to IS NULL OR ?");
                let t6 = concat(t5.as_str(), p.as_str());
                let t7 = concat(t6.as_str(), " < ");
                let t8 = concat(t7.as_str(), alias);
                concat(t8.as_str(), "valid_to)")
            },
        }
    }

    /// The condition for a query on a single table (no prefix).
    pub fn condition(&self, param: usize) -> (c: String)
        ensures
            c@ == condition_text(*self, Seq::empty(), param as int),
    {
        let c = self.condition_with_alias("", param);
        proof {
            reveal_strlit("");
        }
        c
    }

    /// The one value an `AsOf` condition binds; `Latest` binds nothing.
    pub fn value(&self) -> (v: Option<i32>)
        ensures
            match *self {
                ReadAt::Latest => v is None,
                ReadAt::AsOf(d) => v == Some(d),
            },
    {
        match self {
            ReadAt::Latest => None,
            ReadAt::AsOf(d) => Some(*d),
        }
    }
}

pub open spec fn outside_term_message(start: i32, end: i32) -> Seq<char> {
    "Seçilen tarih dönem aralığında değil: dönem "@ + date_text(start) + " – "@ + date_text(end) + " arasındadır."@
}

/// A day asked for by a screen must lie within the term `start..=end`.
pub fn check_read_day(day: i32, start: i32, end: i32) -> (r: Result<ReadAt, AppError>)
    requires
        in_calendar(start as int),
        in_calendar(end as int),
    ensures
        start <= day <= end ==> r == Ok::<ReadAt, AppError>(ReadAt::AsOf(day)),
        !(start <= day <= end) ==> rejects(r, outside_term_message(start, end)),
{
    if day < start || day > end {
        let s = day_text(start);
        let e = day_text(end);
        let t1 = concat("Seçilen tarih dönem aralığında değil: dönem ", s.as_str());
        let t2 = concat(t1.as_str(), " – ");
        let t3 = concat(t2.as_str(), e.as_str());
        return Err(AppError::Validation(concat(t3.as_str(), " arasındadır.")));
    }
    Ok(ReadAt::AsOf(day))
}

} // verus!
