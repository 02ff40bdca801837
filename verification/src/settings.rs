use vstd::prelude::*;
use crate::decimal::{all_digits, digits_only_value, digits_value, lemma_four_digits_bound, parse_i64, parse_i64_str};
use crate::error::{rejects, validation, AppError};
use crate::text::{chars_of, concat, split_once, split_once_chars, str_eq, trim, trimmed};

verus! {

// ---------------------------------------------------------------------------
// The key/value settings
// ---------------------------------------------------------------------------

/// The stored settings, key to value. A later `insert` of a key replaces the
/// earlier value.
#[derive(Debug, Clone)]
pub struct Settings {
    entries: Vec<(String, String)>,
}

pub open spec fn value_lookup(s: Seq<(String, String)>, key: Seq<char>) -> Option<Seq<char>>
    decreases s.len(),
{
    if s.len() == 0 {
        None
    } else if s.last().0@ == key {
        Some(s.last().1@)
    } else {
        value_lookup(s.drop_last(), key)
    }
}

impl Settings {
    /// The value stored under `key`, if any.
    pub closed spec fn value(&self, key: Seq<char>) -> Option<Seq<char>> {
        value_lookup(self.entries@, key)
    }

    pub fn new() -> (s: Settings)
        ensures
            forall|k: Seq<char>| s.value(k) is None,
    {
        Settings { entries: Vec::new() }
    }

    /// Stores `value` under `key`.
    pub fn insert(&mut self, key: String, value: String)
        ensures
            forall|k: Seq<char>| #[trigger]
                final(self).value(k) == if k == key@ {
                    Some(value@)
                } else {
                    old(self).value(k)
                },
    {
        let ghost before = self.entries@;
        self.entries.push((key, value));
        assert(self.entries@.drop_last() =~= before);
    }

    /// The value stored under `key`, if any.
    pub fn get(&self, key: &str) -> (r: Option<&String>)
        ensures
            match r {
                Some(v) => self.value(key@) == Some(v@),
                None => self.value(key@) is None,
            },
    {
        let mut i = self.entries.len();
        assert(self.entries@.take(i as int) =~= self.entries@);
        while i > 0
            invariant
                i <= self.entries@.len(),
                value_lookup(self.entries@, key@) == value_lookup(self.entries@.take(i as int), key@),
            decreases i,
        {
            proof {
                let t = self.entries@.take(i as int);
                assert(t.last() == self.entries@[i - 1]);
                assert(t.drop_last() =~= self.entries@.take(i - 1));
            }
            if str_eq(self.entries[i - 1].0.as_str(), key) {
                return Some(&self.entries[i - 1].1);
            }
            i -= 1;
        }
        None
    }
}

/// An hour setting: the stored value read as an `i64` after trimming, or
/// `fallback` when the key is missing or its value is not a number.
pub open spec fn hour_setting(value: Option<Seq<char>>, fallback: i64) -> i64 {
    match value {
        Some(v) => match parse_i64(trim(v)) {
            Some(n) => n,
            None => fallback,
        },
        None => fallback,
    }
}

/// Reads an hour setting, falling back to `fallback` when it is missing or
/// malformed.
pub fn parse_hour_setting(all: &Settings, key: &str, fallback: i64) -> (h: i64)
    ensures
        h == hour_setting(all.value(key@), fallback),
{
    match all.get(key) {
        Some(value) => {
            let t = trimmed(value.as_str());
            match parse_i64_str(t.as_str()) {
                Some(n) => n,
                None => fallback,
            }
        },
        None => fallback,
    }
}

/// The last lesson of a day, `max_daily_lessons`, when it is not set or not
/// a number.
pub const DEFAULT_MAX_DAILY_LESSONS: i64 = 9;

/// The hour range of the board's grid from the lesson count of a day
/// `max_lessons`: from hour 1 to one past the last lesson (at most
/// `i64::MAX`).
pub open spec fn lesson_bounds(max_lessons: i64) -> (i64, i64) {
    (1, if max_lessons < i64::MAX { (max_lessons + 1) as i64 } else { i64::MAX })
}

/// The first and the last hour of the board's grid, from the
/// `max_daily_lessons` setting.
pub fn lesson_hour_bounds(all: &Settings) -> (r: (i64, i64))
    ensures
        r == lesson_bounds(hour_setting(all.value("max_daily_lessons"@), DEFAULT_MAX_DAILY_LESSONS)),
{
    let max_lessons = parse_hour_setting(all, "max_daily_lessons", DEFAULT_MAX_DAILY_LESSONS);
    let end = if max_lessons < i64::MAX {
        max_lessons + 1
    } else {
        i64::MAX
    };
    (1, end)
}

// ---------------------------------------------------------------------------
// Terms
// ---------------------------------------------------------------------------

/// A year of a term: exactly four ASCII digits.
pub open spec fn year_ok(s: Seq<char>) -> bool {
    s.len() == 4 && all_digits(s)
}

/// A term written `YYYY-YYYY/N`: each year four ASCII digits, the second
/// year one more than the first, and the period the single digit `1` or `2`.
pub open spec fn term_format_ok(term: Seq<char>) -> bool {
    match split_once(term, '/') {
        Some((years, period)) => match split_once(years, '-') {
            Some((first, second)) => {
                &&& year_ok(first)
                &&& year_ok(second)
                &&& digits_value(second) == digits_value(first) + 1
                &&& (period == seq!['1'] || period == seq!['2'])
            },
            None => false,
        },
        None => false,
    }
}

/// The message for a malformed term.
pub open spec fn invalid_term_message(term: Seq<char>) -> Seq<char> {
    "Dönem biçimi \""@ + term
        + "\" geçersiz. Beklenen biçim: YYYY-YYYY/N (ör. 2026-2027/1) — ikinci yıl birincinin bir fazlası, N ise 1 veya 2 olmalı."@
}

fn invalid_term(term: &str) -> (e: AppError)
    ensures
        e matches AppError::Validation(m) && m@ == invalid_term_message(term@),
{
    let a = concat("Dönem biçimi \"", term);
    AppError::Validation(
        concat(
            a.as_str(),
            "\" geçersiz. Beklenen biçim: YYYY-YYYY/N (ör. 2026-2027/1) — ikinci yıl birincinin bir fazlası, N ise 1 veya 2 olmalı.",
        ),
    )
}

/// Checks the `YYYY-YYYY/N` form of a term.
pub fn validate_term_format(term: &str) -> (r: Result<(), AppError>)
    ensures
        r is Ok <==> term_format_ok(term@),
        !term_format_ok(term@) ==> rejects(r, invalid_term_message(term@)),
{
    let cs = chars_of(term);
    let (years, period) = match split_once_chars(&cs, '/') {
        Some(parts) => parts,
        None => return Err(invalid_term(term)),
    };
    let (first_year, second_year) = match split_once_chars(&years, '-') {
        Some(parts) => parts,
        None => return Err(invalid_term(term)),
    };
    if first_year.len() != 4 || second_year.len() != 4 {
        return Err(invalid_term(term));
    }
    let first = match digits_only_value(&first_year) {
        Some(v) => v,
        None => {
            proof {
                if all_digits(first_year@) {
                    lemma_four_digits_bound(first_year@);
                }
            }
            return Err(invalid_term(term));
        },
    };
    let second = match digits_only_value(&second_year) {
        Some(v) => v,
        None => {
            proof {
                if all_digits(second_year@) {
                    lemma_four_digits_bound(second_year@);
                }
            }
            return Err(invalid_term(term));
        },
    };
    proof {
        lemma_four_digits_bound(first_year@);
        lemma_four_digits_bound(second_year@);
    }
    if period.len() != 1 || !(period[0] == '1' || period[0] == '2') {
        proof {
            if period.len() == 1 {
                assert(period@ != seq!['1'] && period@ != seq!['2']) by {
                    if period@ == seq!['1'] {
                        assert(period@[0] == '1');
                    }
                    if period@ == seq!['2'] {
                        assert(period@[0] == '2');
                    }
                }
            }
        }
        return Err(invalid_term(term));
    }
    proof {
        if period@[0] == '1' {
            assert(period@ =~= seq!['1']);
        } else {
            assert(period@ =~= seq!['2']);
        }
    }
    if second != first + 1 {
        return Err(invalid_term(term));
    }
    Ok(())
}

/// Whether `term` is one of `known`.
pub open spec fn is_known(known: Seq<String>, term: Seq<char>) -> bool {
    exists|i: int| 0 <= i < known.len() && #[trigger] known[i]@ == term
}

/// The first checks of creating a term: the form of the term, then that the
/// teaching load is not copied from the term itself. On success, whether the
/// term was known already (which is no error).
pub fn check_new_term(term: &str, known: &Vec<String>, copy_from: &Option<String>) -> (r: Result<bool, AppError>)
    ensures
        !term_format_ok(term@) ==> rejects(r, invalid_term_message(term@)),
        term_format_ok(term@) && (copy_from matches Some(f) && f@ == term@) ==> rejects(
            r,
            "Kaynak ve hedef dönem aynı olamaz"@,
        ),
        term_format_ok(term@) && !(copy_from matches Some(f) && f@ == term@) ==> r == Ok::<bool, AppError>(
            is_known(known@, term@),
        ),
{
    match validate_term_format(term) {
        Err(e) => return Err(e),
        Ok(()) => {},
    }
    let mut already_existed = false;
    let mut i: usize = 0;
    while i < known.len()
        invariant
            i <= known@.len(),
            already_existed == exists|k: int| 0 <= k < i && #[trigger] known@[k]@ == term@,
        decreases known@.len() - i,
    {
        if str_eq(known[i].as_str(), term) {
            already_existed = true;
        }
        i += 1;
    }
    match copy_from {
        Some(from) => {
            if str_eq(from.as_str(), term) {
                return Err(validation("Kaynak ve hedef dönem aynı olamaz"));
            }
        },
        None => {},
    }
    Ok(already_existed)
}

/// The outcome of creating a term.
#[derive(Debug, Clone)]
pub struct CreateTermResult {
    pub term: String,
    /// The term was known before the call; this is no error.
    pub already_existed: bool,
    /// Teaching-load rows copied from the source term.
    pub teaching_load_rows_copied: i64,
    /// A copy was asked for but the target term already had rows, so
    /// nothing was copied (existing rows are never overwritten).
    pub teaching_load_copy_skipped: bool,
}

/// The copy counters once the source rows were read and, when there were
/// any, the copy was tried: `copied` tells whether it wrote.
pub fn teaching_load_copy_counts(source_row_count: usize, copied: bool) -> (r: (i64, bool))
    requires
        source_row_count <= i64::MAX,
    ensures
        source_row_count == 0 ==> r == (0i64, false),
        source_row_count > 0 && copied ==> r == (source_row_count as i64, false),
        source_row_count > 0 && !copied ==> r == (0i64, true),
{
    if source_row_count == 0 {
        (0, false)
    } else if copied {
        (source_row_count as i64, false)
    } else {
        (0, true)
    }
}

} // verus!
