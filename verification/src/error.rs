use vstd::prelude::*;
use crate::text::string_of;

verus! {

/// Errors returned to the user interface; each carries a user-facing message.
#[derive(Debug, Clone)]
pub enum AppError {
    /// Input refused at the boundary or by a domain rule.
    Validation(String),
    /// A record that was asked for does not exist.
    NotFound(String),
    /// The store answered in a way the code did not expect.
    Database(String),
    /// A file or directory could not be used.
    Io(String),
}

pub type AppResult<T> = Result<T, AppError>;

/// `r` is a validation error whose message is `msg`.
pub open spec fn rejects<T>(r: Result<T, AppError>, msg: Seq<char>) -> bool {
    r matches Err(AppError::Validation(m)) && m@ == msg
}

/// A validation error with the given text.
pub fn validation(text: &str) -> (e: AppError)
    ensures
        e matches AppError::Validation(m) && m@ == text@,
{
    AppError::Validation(string_of(text))
}

/// A not-found error with the given text.
pub fn not_found_error(text: String) -> (e: AppError)
    ensures
        e matches AppError::NotFound(m) && m@ == text@,
{
    AppError::NotFound(text)
}

/// A database error with the given text.
pub fn database(text: &str) -> (e: AppError)
    ensures
        e matches AppError::Database(m) && m@ == text@,
{
    AppError::Database(string_of(text))
}

} // verus!
