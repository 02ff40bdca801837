use vstd::prelude::*;
use argon2::password_hash::rand_core::OsRng;
use argon2::password_hash::{PasswordHash, PasswordHasher, PasswordVerifier, SaltString};
use argon2::Argon2;
use crate::companies::normalize_name;
use crate::decimal::{all_digits, decimal, with_number};
use crate::error::{rejects, validation, AppError};
use crate::students::norm;
use crate::text::{all_space, chars_of, concat, is_blank, str_eq, trim, trimmed};

verus! {

/// A user as the screens see it; the PIN hash never leaves the store.
#[derive(Debug, Clone, PartialEq, Eq)]
pub struct UserSummary {
    pub id: i64,
    pub name: String,
    pub is_active: bool,
}

/// The error for a user id that does not exist.
pub fn not_found(id: i64) -> (e: AppError)
    ensures
        e matches AppError::NotFound(m) && m@ == "Kullanıcı bulunamadı: "@ + decimal(id as int),
{
    AppError::NotFound(with_number("Kullanıcı bulunamadı: ", id))
}

/// A PIN is four to six ASCII digits. (Digits are ASCII, so counting
/// characters and counting bytes agree on every PIN accepted, and a text
/// with another character is refused either way.)
pub open spec fn pin_format_ok(pin: Seq<char>) -> bool {
    4 <= pin.len() <= 6 && all_digits(pin)
}

pub open spec fn invalid_pin_message() -> Seq<char> {
    "PIN yalnızca rakamlardan oluşmalı ve 4-6 hane olmalı"@
}

/// Checks the form of a PIN.
pub fn validate_pin_format(pin: &str) -> (r: Result<(), AppError>)
    ensures
        pin_format_ok(pin@) ==> r is Ok,
        !pin_format_ok(pin@) ==> rejects(r, invalid_pin_message()),
{
    let cs = chars_of(pin);
    if cs.len() < 4 || cs.len() > 6 {
        return Err(validation("PIN yalnızca rakamlardan oluşmalı ve 4-6 hane olmalı"));
    }
    let mut i: usize = 0;
    while i < cs.len()
        invariant
            cs@ == pin@,
            i <= cs@.len(),
            forall|k: int| 0 <= k < i ==> '0' <= #[trigger] cs@[k] <= '9',
        decreases cs@.len() - i,
    {
        if !(cs[i] >= '0' && cs[i] <= '9') {
            return Err(validation("PIN yalnızca rakamlardan oluşmalı ve 4-6 hane olmalı"));
        }
        i += 1;
    }
    Ok(())
}

/// The trimmed name; a blank name is refused.
pub fn validate_name(name: &str) -> (r: Result<String, AppError>)
    ensures
        all_space(name@) ==> rejects(r, "Kullanıcı adı boş olamaz"@),
        !all_space(name@) ==> (r matches Ok(n) && n@ == trim(name@)),
{
    if is_blank(name) {
        return Err(validation("Kullanıcı adı boş olamaz"));
    }
    Ok(trimmed(name))
}

/// Some user other than `exclude_id`, active or not, has the same name up to
/// case and spacing.
pub open spec fn has_name_conflict(rows: Seq<(i64, String)>, name: Seq<char>, exclude_id: Option<i64>) -> bool {
    exists|i: int|
        0 <= i < rows.len() && Some(#[trigger] rows[i].0) != exclude_id && norm(rows[i].1@) == norm(name)
}

/// Whether another stored user (given as id and name) already has `name`.
pub fn name_conflicts(rows: &Vec<(i64, String)>, name: &str, exclude_id: Option<i64>) -> (b: bool)
    ensures
        b == has_name_conflict(rows@, name@, exclude_id),
{
    let target = normalize_name(name);
    let mut i: usize = 0;
    while i < rows.len()
        invariant
            i <= rows@.len(),
            target@ == norm(name@),
            forall|k: int| 0 <= k < i ==> !(Some(#[trigger] rows@[k].0) != exclude_id && norm(rows@[k].1@) == norm(name@)),
        decreases rows@.len() - i,
    {
        let row = &rows[i];
        let other = match exclude_id {
            Some(x) => row.0 != x,
            None => true,
        };
        if other {
            let existing = normalize_name(row.1.as_str());
            if str_eq(existing.as_str(), target.as_str()) {
                assert(Some(rows@[i as int].0) != exclude_id && norm(rows@[i as int].1@) == norm(name@));
                return true;
            }
        }
        i += 1;
    }
    false
}

pub fn name_conflict_error() -> (e: AppError)
    ensures
        e matches AppError::Validation(m) && m@ == "Bu isimde bir kullanıcı zaten var"@,
{
    validation("Bu isimde bir kullanıcı zaten var")
}

/// The checks before a user is created, in order: the name, the PIN, then
/// that no user (active or not) has the name. On success, the trimmed name.
pub fn check_new_user(name: &str, pin: &str, rows: &Vec<(i64, String)>) -> (r: Result<String, AppError>)
    ensures
        all_space(name@) ==> rejects(r, "Kullanıcı adı boş olamaz"@),
        !all_space(name@) && !pin_format_ok(pin@) ==> rejects(r, invalid_pin_message()),
        !all_space(name@) && pin_format_ok(pin@) && has_name_conflict(rows@, trim(name@), None) ==> rejects(
            r,
            "Bu isimde bir kullanıcı zaten var"@,
        ),
        !all_space(name@) && pin_format_ok(pin@) && !has_name_conflict(rows@, trim(name@), None) ==> (r matches Ok(
            n,
        ) && n@ == trim(name@)),
{
    let name = match validate_name(name) {
        Ok(n) => n,
        Err(e) => return Err(e),
    };
    match validate_pin_format(pin) {
        Ok(()) => {},
        Err(e) => return Err(e),
    }
    if name_conflicts(rows, name.as_str(), None) {
        return Err(name_conflict_error());
    }
    Ok(name)
}

/// The checks before user `id` is renamed: the name, then that no other
/// user has it. On success, the trimmed name.
pub fn check_rename(id: i64, name: &str, rows: &Vec<(i64, String)>) -> (r: Result<String, AppError>)
    ensures
        all_space(name@) ==> rejects(r, "Kullanıcı adı boş olamaz"@),
        !all_space(name@) && has_name_conflict(rows@, trim(name@), Some(id)) ==> rejects(
            r,
            "Bu isimde bir kullanıcı zaten var"@,
        ),
        !all_space(name@) && !has_name_conflict(rows@, trim(name@), Some(id)) ==> (r matches Ok(n) && n@
            == trim(name@)),
{
    let name = match validate_name(name) {
        Ok(n) => n,
        Err(e) => return Err(e),
    };
    if name_conflicts(rows, name.as_str(), Some(id)) {
        return Err(name_conflict_error());
    }
    Ok(name)
}

/// The signed-in operator follows a rename only when the operator name is
/// the old name of the renamed user, up to case and spacing.
pub fn operator_follows_rename(operator_name: Option<&String>, old_name: &str) -> (b: bool)
    ensures
        b == (operator_name matches Some(op) && norm(op@) == norm(old_name@)),
{
    match operator_name {
        Some(op) => {
            let a = normalize_name(op.as_str());
            let b = normalize_name(old_name);
            str_eq(a.as_str(), b.as_str())
        },
        None => false,
    }
}

/// Whether an activity change passes: activating always, deactivating only
/// while another user is active.
pub open spec fn activation_allowed(is_active: bool, other_active_count: int) -> bool {
    is_active || other_active_count != 0
}

/// Deactivating a user is refused when no other user is active; activating
/// is always allowed.
pub fn check_activation_change(is_active: bool, other_active_count: i64) -> (r: Result<(), AppError>)
    ensures
        !activation_allowed(is_active, other_active_count as int) ==> rejects(
            r,
            "Son etkin kullanıcı pasife alınamaz; önce başka bir kullanıcı ekleyin."@,
        ),
        activation_allowed(is_active, other_active_count as int) ==> r is Ok,
{
    if !is_active && other_active_count == 0 {
        return Err(validation("Son etkin kullanıcı pasife alınamaz; önce başka bir kullanıcı ekleyin."));
    }
    Ok(())
}

/// The number of active users other than `id`.
pub open spec fn other_active_count(users: Seq<UserSummary>, id: i64) -> int
    decreases users.len(),
{
    if users.len() == 0 {
        0
    } else {
        other_active_count(users.drop_last(), id) + if users.last().is_active && users.last().id != id {
            1int
        } else {
            0int
        }
    }
}

/// The users after the activity of user `id` was set to `is_active`.
pub open spec fn with_activity(users: Seq<UserSummary>, id: i64, is_active: bool) -> Seq<UserSummary> {
    Seq::new(
        users.len(),
        |i: int|
            if users[i].id == id {
                UserSummary { id: users[i].id, name: users[i].name, is_active }
            } else {
                users[i]
            },
    )
}

/// Some user is active.
pub open spec fn some_active(users: Seq<UserSummary>) -> bool {
    exists|i: int| 0 <= i < users.len() && (#[trigger] users[i]).is_active
}

proof fn lemma_other_active_nonneg(users: Seq<UserSummary>, id: i64)
    ensures
        other_active_count(users, id) >= 0,
    decreases users.len(),
{
    if users.len() > 0 {
        lemma_other_active_nonneg(users.drop_last(), id);
    }
}

proof fn lemma_other_active_witness(users: Seq<UserSummary>, id: i64)
    requires
        other_active_count(users, id) > 0,
    ensures
        exists|j: int| 0 <= j < users.len() && (#[trigger] users[j]).is_active && users[j].id != id,
    decreases users.len(),
{
    if users.len() > 0 {
        let last = users.len() - 1;
        if users[last].is_active && users[last].id != id {
            assert(users[last].is_active);
        } else {
            lemma_other_active_witness(users.drop_last(), id);
            let j = choose|j: int| 0 <= j < users.drop_last().len() && (#[trigger] users.drop_last()[j]).is_active
                && users.drop_last()[j].id != id;
            assert(users[j] == users.drop_last()[j]);
        }
    }
}

/// Some user stays active: when some user is active and an activity change
/// passes `check_activation_change`, some user is active after the change
/// is applied. (A refused change applies nothing.) So from a state with an
/// active user, no sequence of accepted changes leaves every user inactive.
pub proof fn lemma_some_user_stays_active(users: Seq<UserSummary>, id: i64, is_active: bool)
    requires
        some_active(users),
        activation_allowed(is_active, other_active_count(users, id)),
    ensures
        some_active(with_activity(users, id, is_active)),
{
    let after = with_activity(users, id, is_active);
    if is_active {
        let i = choose|i: int| 0 <= i < users.len() && (#[trigger] users[i]).is_active;
        assert(after[i].is_active);
    } else {
        lemma_other_active_nonneg(users, id);
        lemma_other_active_witness(users, id);
        let j = choose|j: int| 0 <= j < users.len() && (#[trigger] users[j]).is_active && users[j].id != id;
        assert(after[j].is_active);
    }
}

// ---------------------------------------------------------------------------
// PIN hashing (argon2)
// ---------------------------------------------------------------------------

/// Whether Argon2 verification of `pin` against the PHC hash string `hash`
/// succeeds: false when the string does not parse as a hash.
pub uninterp spec fn pin_matches(hash: Seq<char>, pin: Seq<char>) -> bool;

/// A PHC hash string of the Argon2id algorithm: it starts with `$argon2id`.
pub open spec fn is_argon2id_phc(h: Seq<char>) -> bool {
    h.len() >= 9 && h.subrange(0, 9) == "$argon2id"@
}

/// `Argon2::default().hash_password(pin, &SaltString::generate(&mut OsRng))`
/// printed as a PHC string, or the text of the error.
/// - The salt is sixteen random bytes. Argon2 refuses only a password longer
///   than `MAX_PWD_LEN` (0xFFFF_FFFF bytes) or a salt shorter than eight
///   bytes, and the default parameters always hash; so a PIN of at most
///   0x3FFF_FFFF characters (at most four bytes each) is always hashed.
/// - A hash returned verifies against the same PIN: verification parses the
///   algorithm, version, parameters and salt back from the string and
///   recomputes the same output (argon2 0.5, `PasswordVerifier` for every
///   `PasswordHasher`).
/// - The default algorithm is Argon2id, and the PHC string starts with `$`
///   and the algorithm's identifier, so it starts with `$argon2id`.
/// - Which hash comes out depends on the random salt and is not stated, nor
///   is anything said of other PINs.
#[verifier::external_body]
fn hash_with_fresh_salt(pin: &str) -> (r: Result<String, String>)
    ensures
        pin@.len() <= 0x3FFF_FFFF ==> r is Ok,
        r matches Ok(h) ==> pin_matches(h@, pin@) && is_argon2id_phc(h@),
{
    let salt = SaltString::generate(&mut OsRng);
    Argon2::default().hash_password(pin.as_bytes(), &salt).map(|hash| hash.to_string()).map_err(|e| e.to_string())
}

/// `PasswordHash::new(hash)` then `Argon2::default().verify_password(pin, ..)`:
/// true when the string parses and the PIN verifies.
#[verifier::external_body]
fn argon2_verify(hash: &str, pin: &str) -> (b: bool)
    ensures
        b == pin_matches(hash@, pin@),
{
    match PasswordHash::new(hash) {
        Ok(parsed) => Argon2::default().verify_password(pin.as_bytes(), &parsed).is_ok(),
        Err(_) => false,
    }
}

/// Hashes a PIN with a fresh random salt. Every PIN of at most 0x3FFF_FFFF
/// characters (every PIN `validate_pin_format` accepts among them) is
/// hashed; the hash is an Argon2id PHC string that verifies against the same
/// PIN. A failure of the hasher is a validation error naming it.
pub fn hash_pin(pin: &str) -> (r: Result<String, AppError>)
    ensures
        pin@.len() <= 0x3FFF_FFFF ==> r is Ok,
        r matches Ok(h) ==> pin_matches(h@, pin@) && is_argon2id_phc(h@),
        r matches Err(e) ==> (e matches AppError::Validation(m) && exists|t: Seq<char>|
            m@ == "PIN özetlenemedi: "@ + t),
{
    match hash_with_fresh_salt(pin) {
        Ok(h) => Ok(h),
        Err(t) => {
            let m = concat("PIN özetlenemedi: ", t.as_str());
            assert(m@ == "PIN özetlenemedi: "@ + t@);
            Err(AppError::Validation(m))
        },
    }
}

/// The stored fields of a new user: its trimmed name and the hash of its
/// PIN. Refused as `check_new_user` refuses; every accepted user is created.
pub fn new_user_fields(name: &str, pin: &str, rows: &Vec<(i64, String)>) -> (r: Result<(String, String), AppError>)
    ensures
        all_space(name@) ==> rejects(r, "Kullanıcı adı boş olamaz"@),
        !all_space(name@) && !pin_format_ok(pin@) ==> rejects(r, invalid_pin_message()),
        !all_space(name@) && pin_format_ok(pin@) && has_name_conflict(rows@, trim(name@), None) ==> rejects(
            r,
            "Bu isimde bir kullanıcı zaten var"@,
        ),
        !all_space(name@) && pin_format_ok(pin@) && !has_name_conflict(rows@, trim(name@), None) ==> (r matches Ok(
            (n, h),
        ) && n@ == trim(name@) && pin_matches(h@, pin@) && is_argon2id_phc(h@)),
{
    let name = match check_new_user(name, pin, rows) {
        Ok(n) => n,
        Err(e) => return Err(e),
    };
    match hash_pin(pin) {
        Ok(h) => Ok((name, h)),
        Err(e) => Err(e),
    }
}

/// The new hash of a user's PIN: refused when the PIN is not four to six
/// digits, else always made, and it verifies against that PIN.
pub fn new_pin_hash(pin: &str) -> (r: Result<String, AppError>)
    ensures
        !pin_format_ok(pin@) ==> rejects(r, invalid_pin_message()),
        pin_format_ok(pin@) ==> (r matches Ok(h) && pin_matches(h@, pin@) && is_argon2id_phc(h@)),
{
    match validate_pin_format(pin) {
        Ok(()) => {},
        Err(e) => return Err(e),
    }
    hash_pin(pin)
}

/// Whether `pin` matches the stored hash; a hash that does not parse does
/// not match.
pub fn verify_pin(pin_hash: &str, pin: &str) -> (b: bool)
    ensures
        b == pin_matches(pin_hash@, pin@),
{
    argon2_verify(pin_hash, pin)
}

/// The sign-in rule: the user must exist, be active and give a PIN that
/// matches its hash. `stored` is the user's hash and active flag, if the
/// user exists. Unknown user and wrong PIN are not told apart.
pub open spec fn login_allowed(stored: Option<(String, bool)>, pin: Seq<char>) -> bool {
    match stored {
        Some((hash, active)) => active && pin_matches(hash@, pin),
        None => false,
    }
}

/// Decides a sign-in.
pub fn login_decision(stored: &Option<(String, bool)>, pin: &str) -> (b: bool)
    ensures
        b == login_allowed(*stored, pin@),
{
    match stored {
        Some((hash, active)) => {
            if !*active {
                return false;
            }
            verify_pin(hash.as_str(), pin)
        },
        None => false,
    }
}

/// An active user whose PIN was just set with `hash_pin` signs in with that
/// PIN.
pub proof fn lemma_login_after_setting_pin(hash: String, pin: Seq<char>)
    requires
        pin_matches(hash@, pin),
    ensures
        login_allowed(Some((hash, true)), pin),
{
}

/// An inactive user never signs in, whatever the PIN.
pub proof fn lemma_inactive_user_cannot_sign_in(hash: String, pin: Seq<char>)
    ensures
        !login_allowed(Some((hash, false)), pin),
{
}

} // verus!
