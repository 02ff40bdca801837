use mesnet_lite::files::free_file_name;
use mesnet_lite::companies::{normalize_name, resolve_district, validate_company_text};
use mesnet_lite::error::AppError;
use mesnet_lite::files::{numbered_file_name, require_non_empty_path, sanitize_file_name};
use mesnet_lite::model::{ChiefType, EmploymentType, NewStudent, NewTeacher};
use mesnet_lite::settings::{check_new_term, teaching_load_copy_counts, validate_term_format};
use mesnet_lite::students::validate;
use mesnet_lite::teachers::{parse_chief_type, parse_employment_type, validate_identity};

fn message(e: AppError) -> String {
    match e {
        AppError::Validation(m) | AppError::NotFound(m) | AppError::Database(m) | AppError::Io(m) => m,
    }
}

// --- companies ---

struct CompanyInput {
    name: String,
    address_text: String,
}

fn valid_company() -> CompanyInput {
    CompanyInput { name: "Test İşletme A".into(), address_text: "Test adres".into() }
}

#[test]
fn rejects_blank_name() {
    let mut input = valid_company();
    input.name = "   ".into();
    assert!(validate_company_text(&input.name, &input.address_text).is_err());
}

#[test]
fn rejects_blank_address() {
    let mut input = valid_company();
    input.address_text = "  ".into();
    assert!(validate_company_text(&input.name, &input.address_text).is_err());
}

#[test]
fn accepts_valid_input() {
    let input = valid_company();
    assert!(validate_company_text(&input.name, &input.address_text).is_ok());
}

#[test]
fn normalize_name_lowercases_and_collapses_spaces() {
    assert_eq!(normalize_name("  RITIMSAN   ELEKTRONIK  "), "ritimsan elektronik");
    assert_eq!(normalize_name("MEKA OTOMASYON"), normalize_name("  meka   otomasyon "));
}

#[test]
fn company_text_messages_name_the_blank_field() {
    assert_eq!(message(validate_company_text(" ", "x").unwrap_err()), "İşletme adı boş olamaz");
    assert_eq!(message(validate_company_text("x", "\t").unwrap_err()), "Adres boş olamaz");
}

#[test]
fn an_explicit_district_is_kept_and_a_blank_one_falls_back_to_the_address() {
    assert_eq!(resolve_district("  Toroslar ", Some("Akdeniz".to_string())), "Toroslar");
    assert_eq!(resolve_district("  ", Some("Akdeniz".to_string())), "Akdeniz");
    assert_eq!(resolve_district("", None), "");
}

// --- files ---

#[test]
fn sanitize_strips_path_separators() {
    assert_eq!(sanitize_file_name("rapor.pdf").unwrap(), "rapor.pdf");
    assert_eq!(sanitize_file_name("../../etc/passwd").unwrap(), "....etcpasswd");
    assert_eq!(sanitize_file_name("a/b\\c.xlsx").unwrap(), "abc.xlsx");
}

#[test]
fn sanitize_rejects_empty_and_dot_only_names() {
    assert!(sanitize_file_name("").is_err());
    assert!(sanitize_file_name("   ").is_err());
    assert!(sanitize_file_name("..").is_err());
    assert!(sanitize_file_name("...").is_err());
}

#[test]
fn sanitize_keeps_turkish_characters() {
    assert_eq!(sanitize_file_name("Görevlendirme Çizelgesi.pdf").unwrap(), "Görevlendirme Çizelgesi.pdf");
}

#[test]
fn sanitize_messages_tell_blank_from_invalid() {
    assert_eq!(message(sanitize_file_name(" \n").unwrap_err()), "Dosya adı boş olamaz");
    assert_eq!(message(sanitize_file_name("/\\").unwrap_err()), "Geçersiz dosya adı");
    assert_eq!(sanitize_file_name("  a\0b.txt ").unwrap(), "ab.txt");
}

#[test]
fn numbered_names_keep_the_extension() {
    assert_eq!(numbered_file_name("rapor.pdf", 1), "rapor (1).pdf");
    assert_eq!(numbered_file_name("rapor.pdf", 2), "rapor (2).pdf");
    assert_eq!(numbered_file_name("rapor", 1), "rapor (1)");
    assert_eq!(numbered_file_name("arsiv.tar.gz", 3), "arsiv.tar (3).gz");
    assert_eq!(numbered_file_name(".gizli", 1), ".gizli (1)");
    assert_eq!(numbered_file_name("son.", 4), "son (4).");
}

#[test]
fn a_path_is_trimmed_and_may_not_be_blank() {
    assert_eq!(require_non_empty_path("  /tmp/yedek.db ").unwrap(), "/tmp/yedek.db");
    assert_eq!(message(require_non_empty_path("   ").unwrap_err()), "Dosya yolu boş olamaz");
}

// --- terms ---

#[test]
fn accepts_a_well_formed_term() {
    assert!(validate_term_format("2026-2027/1").is_ok());
    assert!(validate_term_format("2027-2028/2").is_ok());
}

#[test]
fn rejects_a_second_year_that_is_not_one_more_than_the_first() {
    assert!(validate_term_format("2026-2028/1").is_err());
    assert!(validate_term_format("2026-2026/1").is_err());
}

#[test]
fn rejects_a_period_number_outside_one_or_two() {
    assert!(validate_term_format("2026-2027/0").is_err());
    assert!(validate_term_format("2026-2027/3").is_err());
}

#[test]
fn rejects_free_text_and_malformed_terms() {
    assert!(validate_term_format("2026").is_err());
    assert!(validate_term_format("2026-2027").is_err());
    assert!(validate_term_format("26-27/1").is_err());
    assert!(validate_term_format("2026-2027/1/2").is_err());
    assert!(validate_term_format("bozuk").is_err());
}

#[test]
fn the_term_message_quotes_the_term() {
    assert_eq!(
        message(validate_term_format("bozuk").unwrap_err()),
        "Dönem biçimi \"bozuk\" geçersiz. Beklenen biçim: YYYY-YYYY/N (ör. 2026-2027/1) — ikinci yıl birincinin bir fazlası, N ise 1 veya 2 olmalı."
    );
}

#[test]
fn a_new_term_reports_whether_it_was_known_and_refuses_copying_from_itself() {
    let known = vec!["2026-2027/1".to_string()];
    assert_eq!(check_new_term("2026-2027/1", &known, &None).unwrap(), true);
    assert_eq!(check_new_term("2027-2028/1", &known, &Some("2026-2027/1".to_string())).unwrap(), false);
    assert_eq!(
        message(check_new_term("2027-2028/1", &known, &Some("2027-2028/1".to_string())).unwrap_err()),
        "Kaynak ve hedef dönem aynı olamaz"
    );
    assert!(check_new_term("bozuk", &known, &None).is_err());
}

#[test]
fn copy_counts_tell_copied_from_skipped() {
    assert_eq!(teaching_load_copy_counts(0, false), (0, false));
    assert_eq!(teaching_load_copy_counts(3, true), (3, false));
    assert_eq!(teaching_load_copy_counts(3, false), (0, true));
}

// --- students ---

fn valid_student() -> NewStudent {
    NewStudent {
        first_name: "Ahmet".into(),
        last_name: "Yilmaz".into(),
        student_no: None,
        grade: "12/C".into(),
        branch: "Elektronik Haberleşme".into(),
        submitted_at: None,
        term: "2026-2027/1".into(),
    }
}

#[test]
fn rejects_blank_names() {
    let mut input = valid_student();
    input.first_name = "  ".into();
    assert!(validate(&input).is_err());
}

#[test]
fn rejects_blank_grade_and_branch() {
    let mut input = valid_student();
    input.grade = String::new();
    assert!(validate(&input).is_err());

    let mut input = valid_student();
    input.branch = String::new();
    assert!(validate(&input).is_err());
}

#[test]
fn accepts_valid_student() {
    assert!(validate(&valid_student()).is_ok());
}

// --- teachers ---

fn valid_teacher(last_name: &str, chief_type: &str) -> NewTeacher {
    NewTeacher {
        first_name: "Test".into(),
        last_name: last_name.into(),
        registry_no: String::new(),
        field: "Elektrik-Elektronik Teknolojisi".into(),
        branches: vec!["Elektronik Haberleşme".into()],
        employment_type: "tenured".into(),
        base_hours: 20,
        max_extra_hours: 24,
        other_extra_hours: 0,
        chief_type: chief_type.into(),
        is_active: true,
    }
}

#[test]
fn rejects_blank_names_and_field() {
    let mut input = valid_teacher("Ogretmen", "none");
    input.first_name = " ".into();
    assert!(validate_identity(&input).is_err());

    let mut input = valid_teacher("Ogretmen", "none");
    input.field = String::new();
    assert!(validate_identity(&input).is_err());
}

#[test]
fn accepts_valid_identity() {
    assert!(validate_identity(&valid_teacher("Ogretmen", "none")).is_ok());
}

#[test]
fn parse_chief_type_falls_back_to_none_for_unknown_value() {
    assert_eq!(parse_chief_type("bilinmeyen"), ChiefType::NotChief);
}

#[test]
fn parse_employment_type_falls_back_to_tenured_for_unknown_value() {
    assert_eq!(parse_employment_type("bilinmeyen"), EmploymentType::Tenured);
    assert_eq!(parse_employment_type("contracted"), EmploymentType::Contracted);
}

#[test]
fn term_parts_must_be_plain_digits() {
    assert!(validate_term_format("2026-2027/+1").is_err());
    assert!(validate_term_format("2026-2027/01").is_err());
    assert!(validate_term_format("+202-+203/1").is_err());
    assert!(validate_term_format("2026-2027/ 1").is_err());
    assert!(validate_term_format("0999-1000/2").is_ok());
}

#[test]
fn free_file_name_takes_the_first_untaken_number() {
    let none: Vec<String> = vec![];
    assert_eq!(free_file_name("rapor.pdf", &none).as_deref(), Some("rapor.pdf"));
    let taken = vec!["rapor.pdf".to_string()];
    assert_eq!(free_file_name("rapor.pdf", &taken).as_deref(), Some("rapor (1).pdf"));
    let taken = vec!["rapor (1).pdf".to_string(), "rapor.pdf".to_string()];
    assert_eq!(free_file_name("rapor.pdf", &taken).as_deref(), Some("rapor (2).pdf"));
    let taken = vec!["rapor".to_string()];
    assert_eq!(free_file_name("rapor", &taken).as_deref(), Some("rapor (1)"));
    let mut all: Vec<String> = (1..=999).map(|k| format!("a ({k}).txt")).collect();
    all.push("a.txt".to_string());
    assert_eq!(free_file_name("a.txt", &all), None);
}
