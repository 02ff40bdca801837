use vstd::prelude::*;
use crate::decimal::{decimal, with_number};
use crate::error::{rejects, validation, AppError};
use crate::students::norm;
use crate::model::CompanyRemoval;
use crate::text::{collapse, collapsed, lemma_collapse_idempotent, all_space, collapse_spaces, is_blank, str_eq, to_lowercase, trim, trimmed};

verus! {

/// The district of a company: the one typed by the user, trimmed, when it is
/// not blank (it is never overwritten); otherwise the one read from the
/// address, or nothing.
pub open spec fn district_of(explicit: Seq<char>, from_address: Option<String>) -> Seq<char> {
    if !all_space(explicit) {
        trim(explicit)
    } else {
        match from_address {
            Some(d) => d@,
            None => Seq::empty(),
        }
    }
}

/// Chooses the district of a company; `from_address` is what the address
/// text yields, if anything.
pub fn resolve_district(explicit_district: &str, from_address: Option<String>) -> (r: String)
    ensures
        r@ == district_of(explicit_district@, from_address),
{
    if !is_blank(explicit_district) {
        return trimmed(explicit_district);
    }
    match from_address {
        Some(d) => d,
        None => String::new(),
    }
}

/// A company name as it is compared for duplicates: lowercased, words
/// joined by single spaces.
pub fn normalize_name(name: &str) -> (r: String)
    ensures
        r@ == norm(name@),
{
    let lower = to_lowercase(name);
    collapse_spaces(lower.as_str())
}

/// A normalized name is words joined by single ASCII spaces, with no
/// whitespace at either end; collapsing its spacing again changes nothing.
pub proof fn lemma_normalized_name_is_collapsed(name: Seq<char>)
    ensures
        collapsed(norm(name)),
        collapse(norm(name)) == norm(name),
{
    lemma_collapse_idempotent(crate::text::lowercase(name));
}

/// The error for a company id that does not exist.
pub fn not_found(id: i64) -> (e: AppError)
    ensures
        e matches AppError::NotFound(m) && m@ == "İşletme bulunamadı: "@ + decimal(id as int),
{
    AppError::NotFound(with_number("İşletme bulunamadı: ", id))
}

/// The text checks on a company input: a blank name is refused first, then
/// a blank address.
pub fn validate_company_text(name: &str, address_text: &str) -> (r: Result<(), AppError>)
    ensures
        all_space(name@) ==> rejects(r, "İşletme adı boş olamaz"@),
        !all_space(name@) && all_space(address_text@) ==> rejects(r, "Adres boş olamaz"@),
        !all_space(name@) && !all_space(address_text@) ==> r is Ok,
{
    if is_blank(name) {
        return Err(validation("İşletme adı boş olamaz"));
    }
    if is_blank(address_text) {
        return Err(validation("Adres boş olamaz"));
    }
    Ok(())
}

/// What removing company `id` does: an unknown id is an error; a company
/// with history is deactivated, one without is deleted.
pub fn removal_outcome(id: i64, exists: bool, has_history: bool) -> (r: Result<CompanyRemoval, AppError>)
    ensures
        !exists ==> (r matches Err(AppError::NotFound(m)) && m@ == "İşletme bulunamadı: "@ + decimal(id as int)),
        exists ==> r == Ok::<CompanyRemoval, AppError>(CompanyRemoval { soft_deleted: has_history }),
{
    if !exists {
        return Err(not_found(id));
    }
    Ok(CompanyRemoval { soft_deleted: has_history })
}

/// The position of the first company, in the order given, whose name is
/// `name` up to case and spacing.
pub fn find_by_normalized_name(names: &Vec<String>, name: &str) -> (r: Option<usize>)
    ensures
        match r {
            Some(i) => i < names@.len() && norm(names@[i as int]@) == norm(name@) && forall|j: int|
                0 <= j < i ==> norm(#[trigger] names@[j]@) != norm(name@),
            None => forall|j: int| 0 <= j < names@.len() ==> norm(#[trigger] names@[j]@) != norm(name@),
        },
{
    let target = normalize_name(name);
    let mut i: usize = 0;
    while i < names.len()
        invariant
            i <= names@.len(),
            target@ == norm(name@),
            forall|j: int| 0 <= j < i ==> norm(#[trigger] names@[j]@) != norm(name@),
        decreases names@.len() - i,
    {
        let n = normalize_name(names[i].as_str());
        if str_eq(n.as_str(), target.as_str()) {
            return Some(i);
        }
        i += 1;
    }
    None
}

} // verus!
