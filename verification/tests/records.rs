use chrono::Datelike;
use mesnet_lite::error::AppError;
use mesnet_lite::history::{count_mismatch, resolve_caused_by};
use mesnet_lite::model::{NewStudent, Student};
use mesnet_lite::students::{fallback_key, find_duplicate_among, non_empty, normalize, not_found};
use mesnet_lite::terms::{
    check_term_date_update, check_term_order, live_events, reject_if_end_moves_before_any_event,
    reject_if_start_moves_past_a_non_opening_event, reject_if_touches_a_past_month, TermEvent,
};
use mesnet_lite::users::{
    check_activation_change, new_pin_hash, new_user_fields, check_new_user, check_rename, hash_pin, login_decision, name_conflicts,
    operator_follows_rename, validate_name, validate_pin_format, verify_pin,
};

fn message(e: AppError) -> String {
    match e {
        AppError::Validation(m) | AppError::NotFound(m) | AppError::Database(m) | AppError::Io(m) => m,
    }
}

fn day(y: i32, m: u32, d: u32) -> i32 {
    chrono::NaiveDate::from_ymd_opt(y, m, d).unwrap().num_days_from_ce()
}

// --- users ---

#[test]
fn pins_are_four_to_six_digits() {
    for good in ["1234", "12345", "123456", "0000"] {
        assert!(validate_pin_format(good).is_ok(), "{good}");
    }
    for bad in ["123", "1234567", "12a4", "", "١٢٣٤", "12 4"] {
        assert_eq!(message(validate_pin_format(bad).unwrap_err()), "PIN yalnızca rakamlardan oluşmalı ve 4-6 hane olmalı");
    }
}

#[test]
fn user_names_are_trimmed_and_not_blank() {
    assert_eq!(validate_name("  Ayşe Yılmaz ").unwrap(), "Ayşe Yılmaz");
    assert_eq!(message(validate_name("   ").unwrap_err()), "Kullanıcı adı boş olamaz");
}

#[test]
fn name_conflicts_ignore_case_spacing_and_the_user_itself() {
    let rows = vec![(1, "Ayşe Yılmaz".to_string()), (2, "Fatma Kaya".to_string())];
    assert!(name_conflicts(&rows, "AYŞE   yılmaz", None));
    assert!(!name_conflicts(&rows, "Ayşe Yılmaz", Some(1)));
    assert!(name_conflicts(&rows, "fatma  kaya", Some(1)));
    assert!(!name_conflicts(&rows, "Ali Veli", None));
}

#[test]
fn new_user_checks_come_in_order() {
    let rows = vec![(1, "Ayşe Yılmaz".to_string())];
    assert_eq!(message(check_new_user("  ", "12", &rows).unwrap_err()), "Kullanıcı adı boş olamaz");
    assert!(message(check_new_user("Ali", "12", &rows).unwrap_err()).starts_with("PIN"));
    assert_eq!(message(check_new_user("ayşe yılmaz", "1234", &rows).unwrap_err()), "Bu isimde bir kullanıcı zaten var");
    assert_eq!(check_new_user(" Ali ", "1234", &rows).unwrap(), "Ali");
    assert_eq!(check_rename(1, " Ayşe Demir ", &rows).unwrap(), "Ayşe Demir");
}

#[test]
fn the_last_active_user_cannot_be_deactivated() {
    assert!(check_activation_change(false, 0).is_err());
    assert!(check_activation_change(false, 1).is_ok());
    assert!(check_activation_change(true, 0).is_ok());
}

#[test]
fn the_operator_follows_only_its_own_rename() {
    let op = "Ayşe Yılmaz".to_string();
    assert!(operator_follows_rename(Some(&op), "ayşe  yılmaz"));
    assert!(!operator_follows_rename(Some(&op), "Fatma Kaya"));
    assert!(!operator_follows_rename(None, "Ayşe Yılmaz"));
}

#[test]
fn a_hashed_pin_verifies_and_never_holds_the_plain_pin() {
    let hash = hash_pin("4321").unwrap();
    assert!(!hash.contains("4321"));
    assert!(hash.starts_with("$argon2id"));
    assert!(verify_pin(&hash, "4321"));
    assert!(!verify_pin(&hash, "9999"));
    assert!(!verify_pin("bozuk özet", "4321"));
}

#[test]
fn sign_in_needs_an_active_user_and_the_right_pin() {
    let hash = hash_pin("4321").unwrap();
    assert!(login_decision(&Some((hash.clone(), true)), "4321"));
    assert!(!login_decision(&Some((hash.clone(), true)), "9999"));
    assert!(!login_decision(&Some((hash, false)), "4321"));
    assert!(!login_decision(&None, "4321"));
}

// --- students ---

fn stored(id: i64, first: &str, last: &str, no: Option<&str>, grade: &str, branch: &str) -> Student {
    Student {
        id,
        first_name: first.into(),
        last_name: last.into(),
        student_no: no.map(|s| s.to_string()),
        grade: grade.into(),
        branch: branch.into(),
        company_id: None,
        submitted_at: None,
        term: "2026-2027/1".into(),
    }
}

fn candidate(first: &str, last: &str, no: Option<&str>, grade: &str, branch: &str) -> NewStudent {
    NewStudent {
        first_name: first.into(),
        last_name: last.into(),
        student_no: no.map(|s| s.to_string()),
        grade: grade.into(),
        branch: branch.into(),
        submitted_at: None,
        term: "2026-2027/1".into(),
    }
}

#[test]
fn normalize_and_keys() {
    assert_eq!(normalize("  AHMET   Yılmaz "), "ahmet yılmaz");
    assert_eq!(fallback_key("Ahmet", " YILMAZ", "12/C", "Dal  A"), "ahmet|yilmaz|12/c|dal a");
    assert_eq!(non_empty(Some(&"   ".to_string())), None);
    assert_eq!(non_empty(Some(&" 12 ".to_string())), Some("12".to_string()));
    assert_eq!(non_empty(None), None);
    assert_eq!(message(not_found(7)), "Öğrenci bulunamadı: 7");
}

#[test]
fn duplicates_are_found_by_number_first() {
    let rows = vec![
        stored(1, "Ahmet", "Yılmaz", Some("101"), "12/C", "Dal A"),
        stored(2, "Ahmet", "Yılmaz", None, "12/C", "Dal B"),
        stored(3, "Ahmet", "Yılmaz", None, "12/C", "Dal B"),
    ];
    let by_no = find_duplicate_among(&rows, &candidate("X", "Y", Some(" 101 "), "9", "Z")).unwrap();
    assert_eq!(by_no.id, 1);
    let by_key = find_duplicate_among(&rows, &candidate("ahmet", "YıLMAZ", None, "12/c", "dal b")).unwrap();
    assert_eq!(by_key.id, 2);
    assert!(find_duplicate_among(&rows, &candidate("Ahmet", "Yılmaz", None, "12/C", "Dal A")).is_none());
    assert!(find_duplicate_among(&rows, &candidate("Ahmet", "Yılmaz", Some("999"), "12/C", "Dal B")).is_none());
}

// --- change log and projections ---

#[test]
fn caused_by_points_back_into_the_same_change_set() {
    let ids = vec![10, 11];
    assert_eq!(resolve_caused_by(&ids, None).unwrap(), None);
    assert_eq!(resolve_caused_by(&ids, Some(1)).unwrap(), Some(11));
    assert_eq!(
        message(resolve_caused_by(&ids, Some(2)).unwrap_err()),
        "caused_by indeksi (2) henüz eklenmemiş bir olaya işaret ediyor."
    );
}

#[test]
fn a_count_mismatch_is_one_drift() {
    assert!(count_mismatch("student_placements", 4, 2, 2).is_none());
    let d = count_mismatch("student_placements", 4, 2, 3).unwrap();
    assert_eq!(d.table, "student_placements");
    assert_eq!(d.subject_id, 4);
    assert_eq!(d.detail, "beklenen 2 aralık, tabloda 3 satır var");
}

// --- term dates ---

fn event(id: i64, effective: i32, revokes: Option<i64>, is_revocation: bool, is_opening: bool) -> TermEvent {
    TermEvent { id, effective_day: effective, revokes, is_revocation, is_opening }
}

#[test]
fn revoked_events_and_their_markers_do_not_count() {
    let events = vec![
        event(1, day(2026, 9, 1), None, false, true),
        event(2, day(2026, 10, 5), None, false, false),
        event(3, day(2026, 10, 6), Some(2), true, false),
        event(4, day(2026, 10, 7), None, false, false),
    ];
    let live: Vec<i64> = live_events(&events).iter().map(|e| e.id).collect();
    assert_eq!(live, vec![1, 4]);
}

#[test]
fn term_dates_must_be_ordered() {
    assert_eq!(message(check_term_order(day(2026, 9, 1), day(2026, 9, 1)).unwrap_err()), "Dönem bitiş tarihi başlangıçtan sonra olmalıdır.");
    assert!(check_term_order(day(2026, 9, 1), day(2026, 9, 2)).is_ok());
}

#[test]
fn a_day_of_a_past_month_may_not_change() {
    let today = day(2026, 11, 10);
    let err = reject_if_touches_a_past_month(day(2026, 9, 1), day(2027, 1, 31), day(2026, 9, 10), day(2027, 1, 31), today).unwrap_err();
    assert_eq!(
        message(err),
        "2026-09-01 önceki bir aya düşüyor; o ayın ek ders puantajı ilçeye gönderildi, dönem tarihleri artık o günü değiştiremez."
    );
    assert!(reject_if_touches_a_past_month(day(2026, 9, 1), day(2027, 1, 31), day(2026, 9, 1), day(2027, 1, 29), today).is_ok());
    assert!(reject_if_touches_a_past_month(day(2026, 9, 1), day(2027, 1, 31), day(2026, 9, 10), day(2027, 1, 31), day(2026, 8, 15)).is_ok());
}

#[test]
fn event_dates_bound_the_term() {
    let events = vec![
        event(1, day(2026, 9, 1), None, false, true),
        event(2, day(2026, 9, 15), None, false, false),
        event(3, day(2026, 12, 20), None, false, false),
        event(4, day(2027, 1, 30), Some(9), true, false),
    ];
    assert!(reject_if_start_moves_past_a_non_opening_event(&events, day(2026, 9, 10)).is_ok());
    assert_eq!(
        message(reject_if_start_moves_past_a_non_opening_event(&events, day(2026, 9, 20)).unwrap_err()),
        "Dönem başlangıcı 2026-09-15 tarihli bir kayıttan sonraya alınamaz."
    );
    assert_eq!(
        message(reject_if_end_moves_before_any_event(&events, day(2026, 12, 1)).unwrap_err()),
        "Dönem bitişi 2026-12-20 tarihli bir kayıttan önceye alınamaz."
    );
    assert!(reject_if_end_moves_before_any_event(&events, day(2026, 12, 31)).is_ok());
    assert!(check_term_date_update(day(2026, 9, 1), day(2027, 1, 31), day(2026, 9, 10), day(2027, 1, 29), day(2026, 8, 15), &events).is_ok());
}

#[test]
fn a_valid_new_user_is_always_created_with_a_working_hash() {
    let rows = vec![(1, "Ayşe Yılmaz".to_string())];
    let (name, hash) = new_user_fields("  Mehmet Kaya ", "123456", &rows).unwrap();
    assert_eq!(name, "Mehmet Kaya");
    assert!(hash.starts_with("$argon2id"));
    assert!(verify_pin(&hash, "123456"));
    assert!(new_user_fields("ayşe  yılmaz", "1234", &rows).is_err());
    assert!(new_user_fields("Ali", "12a4", &rows).is_err());
    assert!(new_user_fields("   ", "1234", &rows).is_err());
}

#[test]
fn setting_a_pin_hashes_a_valid_one_and_refuses_others() {
    let hash = new_pin_hash("9876").unwrap();
    assert!(verify_pin(&hash, "9876"));
    assert!(!verify_pin(&hash, "4321"));
    assert!(new_pin_hash("987").is_err());
    assert!(new_pin_hash("9876543").is_err());
}
