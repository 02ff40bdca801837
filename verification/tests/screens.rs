use chrono::Datelike;
use mesnet_lite::assignment::{board_teacher, board_warnings, occupied_cells_by_teacher, Placement};
use mesnet_lite::availability::{
    build_availability_board, check_class_days, check_copy_source, schedule_copy_allowed,
};
use mesnet_lite::board::{board_company, board_counters, parse_slot_keys, placements, sort_cards_by_name, used_slots};
use mesnet_lite::dashboard::{dashboard_stats_from, CompanyPresence, TeacherBalance};
use mesnet_lite::error::AppError;
use mesnet_lite::hours::{hours_summary, HoursTally};
use mesnet_lite::model::{
    Assignment, AvailabilitySlot, ClassWorkplaceDay, CompanyTermHours, Slot, Student, Teacher,
};
use mesnet_lite::read_at::{check_read_day, ReadAt};
use mesnet_lite::settings::Settings;
use mesnet_lite::teachers::{decode_branches, encode_branches, load_for_teacher, with_loads, LoadRow};

fn message(e: AppError) -> String {
    match e {
        AppError::Validation(m) | AppError::NotFound(m) | AppError::Database(m) | AppError::Io(m) => m,
    }
}

fn teacher(id: i64, first: &str, last: &str) -> Teacher {
    Teacher {
        id,
        first_name: first.into(),
        last_name: last.into(),
        registry_no: String::new(),
        field: "Elektrik".into(),
        branches: "[\"Dal A\",\"Dal B\"]".into(),
        employment_type: "tenured".into(),
        base_hours: 20,
        max_extra_hours: 24,
        other_extra_hours: 0,
        chief_type: "none".into(),
        is_active: 1,
    }
}

fn slot(teacher_id: i64, day: i64, hour: i64) -> AvailabilitySlot {
    AvailabilitySlot { teacher_id, day_of_week: day, hour }
}

fn class_day(grade: &str, day: i64) -> ClassWorkplaceDay {
    ClassWorkplaceDay { grade: grade.into(), day_of_week: day }
}

fn student(id: i64, first: &str, grade: &str, branch: &str, company: Option<i64>) -> Student {
    Student {
        id,
        first_name: first.into(),
        last_name: "Öğrenci".into(),
        student_no: None,
        grade: grade.into(),
        branch: branch.into(),
        company_id: company,
        submitted_at: None,
        term: "2026-2027/1".into(),
    }
}

#[test]
fn availability_board_lists_sorted_teachers_classes_and_warnings() {
    let mut settings = Settings::new();
    settings.insert("day_start_hour".into(), "9".into());
    let teachers = vec![teacher(1, "Zeynep", "Kaya"), teacher(2, "Ali", "Veli")];
    let slots = vec![slot(1, 1, 2), slot(1, 3, 4)];
    let grades = vec!["12/D".to_string(), "12/C".to_string(), "12/D".to_string()];
    let rows = vec![class_day("12/C", 3), class_day("12/C", 1), class_day("12/C", 3), class_day("11/A", 2)];
    let terms = vec!["2026-2027/1".to_string(), "2025-2026/2".to_string()];
    let board = build_availability_board(&"2026-2027/1".to_string(), &settings, &teachers, &slots, &grades, &rows, &terms);

    assert_eq!(board.day_start_hour, 9);
    assert_eq!(board.day_end_hour, 17);
    let names: Vec<&str> = board.teachers.iter().map(|t| t.teacher_name.as_str()).collect();
    assert_eq!(names, vec!["Ali Veli", "Zeynep Kaya"]);
    assert_eq!(board.teachers[1].free_slots, vec!["1-2".to_string(), "3-4".to_string()]);
    assert_eq!(board.teachers[1].free_count, 2);
    assert_eq!(board.teachers[0].free_count, 0);
    let classes: Vec<(&str, Vec<i64>, i64)> =
        board.classes.iter().map(|c| (c.grade.as_str(), c.days.clone(), c.student_count)).collect();
    assert_eq!(classes, vec![("11/A", vec![2], 0), ("12/C", vec![1, 3], 1), ("12/D", vec![], 2)]);
    assert_eq!(board.other_terms, vec!["2025-2026/2".to_string()]);
    assert_eq!(
        board.warnings,
        vec![
            "1 öğretmenin boş saati girilmemiş; bu öğretmenlere işletme atanamaz.".to_string(),
            "1 sınıfın işletme günü tanımlanmamış; o sınıfın öğrencilerinin bulunduğu işletmeler dağıtıma giremez.".to_string(),
        ]
    );
}

#[test]
fn an_empty_availability_board_warns_about_teachers_and_classes() {
    let board = build_availability_board(&String::new(), &Settings::new(), &vec![], &vec![], &vec![], &vec![], &vec![]);
    assert_eq!(board.day_start_hour, 8);
    assert_eq!(
        board.warnings,
        vec![
            "Aktif öğretmen yok. Önce Öğretmenler ekranından öğretmen ekleyin.".to_string(),
            "Bu dönemde öğrenci kaydı yok. Önce CSV içe aktarın.".to_string(),
        ]
    );
}

#[test]
fn class_days_are_checked_trimmed_and_deduplicated() {
    assert_eq!(message(check_class_days("  ", &vec![1]).unwrap_err()), "Sınıf boş olamaz");
    assert_eq!(message(check_class_days("12/C", &vec![1, 6]).unwrap_err()), "Gün Pazartesi ile Cuma arasında olmalı");
    let (grade, days) = check_class_days(" 12/C ", &vec![3, 1, 3, 5]).unwrap();
    assert_eq!(grade, "12/C");
    assert_eq!(days, vec![1, 3, 5]);
    assert!(check_copy_source("2026-2027/1", "2026-2027/1").is_err());
    assert!(check_copy_source("2025-2026/1", "2026-2027/1").is_ok());
    assert!(schedule_copy_allowed(0, 4));
    assert!(!schedule_copy_allowed(2, 4));
    assert!(!schedule_copy_allowed(0, 0));
}

#[test]
fn dashboard_counts_balances_and_gaps() {
    let companies = vec![
        CompanyPresence { id: 1, has_location: true },
        CompanyPresence { id: 2, has_location: false },
        CompanyPresence { id: 3, has_location: true },
    ];
    let students = vec![Some(1), None, Some(2), Some(2)];
    let teachers = vec![
        TeacherBalance { id: 10, is_active: true, capacity: 6 },
        TeacherBalance { id: 11, is_active: true, capacity: 4 },
        TeacherBalance { id: 12, is_active: false, capacity: 9 },
        TeacherBalance { id: 13, is_active: true, capacity: 0 },
    ];
    let awarded = vec![(10, 6), (11, 5)];
    let stats = dashboard_stats_from(
        "2026-2027/1".to_string(),
        &companies,
        &students,
        &teachers,
        &awarded,
        &vec![1],
        &vec![(1, 1), (2, 2)],
        11,
        88,
        90,
    );
    assert_eq!((stats.company_count, stats.student_count, stats.teacher_count, stats.active_teacher_count), (3, 4, 4, 3));
    assert_eq!((stats.total_capacity_hours, stats.assigned_hours, stats.remaining_hours), (10, 11, -1));
    assert_eq!((stats.teachers_at_capacity, stats.teachers_over_capacity), (1, 1));
    assert_eq!((stats.pool_hours, stats.awarded_hours, stats.remaining_pool_hours), (88, 90, -2));
    assert_eq!(stats.companies_without_location, 1);
    assert_eq!(stats.students_without_company, 1);
    assert_eq!(stats.companies_without_students, 1);
    assert_eq!(stats.companies_without_assignment, 1);
}

#[test]
fn hours_summary_totals_and_warnings() {
    let rows = vec![
        HoursTally { max_hours: Some(6), awarded_hours: 6, is_honorary: false, is_locked: true },
        HoursTally { max_hours: None, awarded_hours: 0, is_honorary: true, is_locked: false },
        HoursTally { max_hours: Some(4), awarded_hours: 3, is_honorary: false, is_locked: false },
    ];
    let s = hours_summary(&rows, 8);
    assert_eq!((s.total_awarded, s.total_max, s.honorary_count, s.locked_count, s.without_rule_count), (9, 10, 1, 1, 1));
    assert_eq!(
        s.warnings,
        vec![
            "Toplam takdir edilen saat (9) ders yükü havuzunu (8) aşıyor!".to_string(),
            "1 işletmenin mesafe ve öğrenci sayısına uyan saat kuralı yok; tavan hesaplanamadı.".to_string(),
        ]
    );
    let none = hours_summary(&vec![], 0);
    assert_eq!(none.warnings.len(), 1);
    assert!(none.warnings[0].starts_with("Bu dönem için ders yükü havuzu tanımlanmamış."));
}

#[test]
fn a_board_card_collects_its_students_days_and_placement() {
    let students = vec![
        student(1, "Ayşe", "12/C", "Dal B", Some(7)),
        student(2, "Can", "12/D", "Dal A", Some(7)),
        student(3, "Efe", "12/C", "Dal B", Some(8)),
        student(4, "Gül", "12/C", "Dal B", Some(7)),
    ];
    let rows = vec![class_day("12/C", 3), class_day("12/D", 1), class_day("12/D", 3), class_day("11/A", 5)];
    let hours = CompanyTermHours {
        id: 1,
        company_id: 7,
        term: "2026-2027/1".into(),
        max_hours_snapshot: 6,
        awarded_hours: 3,
        is_honorary: 0,
        is_locked: 0,
        notes: String::new(),
    };
    let assignment = Assignment {
        id: 1,
        teacher_id: 10,
        company_id: 7,
        term: "2026-2027/1".into(),
        visit_day: 3,
        visit_hour: 2,
        is_forced: 1,
        force_reason: Some("elle".into()),
    };
    let card = board_company(7, &"Meka".to_string(), &"Adres".to_string(), &"Akdeniz".to_string(), &students, &rows, Some(&hours), Some(&assignment), 3);
    assert_eq!(card.student_count, 3);
    assert_eq!(card.student_names, vec!["Ayşe Öğrenci".to_string(), "Can Öğrenci".to_string(), "Gül Öğrenci".to_string()]);
    assert_eq!(card.branches, vec!["Dal A".to_string(), "Dal B".to_string()]);
    assert_eq!(card.workplace_days, vec![1, 3]);
    assert_eq!((card.awarded_hours, card.is_honorary, card.hours_missing), (3, false, false));
    assert_eq!((card.assigned_teacher_id, card.visit_day, card.visit_hour, card.visit_end_hour), (Some(10), Some(3), Some(2), Some(4)));
    assert!(card.is_forced);
    assert_eq!(card.district, "Akdeniz");

    let other = board_company(9, &"Alfa".to_string(), &"A".to_string(), &String::new(), &students, &rows, None, None, 1);
    assert_eq!((other.student_count, other.hours_missing, other.assigned_teacher_id), (0, true, None));

    let sorted = sort_cards_by_name(&vec![card, other]);
    assert_eq!(sorted[0].company_name, "Alfa");
    let counters = board_counters(&sorted, 88, 3);
    assert_eq!(counters.remaining_hours, 85);
    assert_eq!((counters.assigned_company_count, counters.total_company_count, counters.honorary_count), (1, 2, 0));
    assert_eq!((counters.missing_hours_count, counters.total_awarded_hours), (1, 3));
    assert_eq!(placements(&sorted), vec![(10, 3, 2, 4, 7)]);
    assert_eq!(used_slots(&sorted, 10), vec![Slot::new(3, 2), Slot::new(3, 3), Slot::new(3, 4)]);
    assert_eq!(used_slots(&sorted, 11), vec![]);
}

#[test]
fn a_board_teacher_reads_its_hours_days_and_cells() {
    let t = teacher(10, "Ayşe", "Kaya");
    let placements: [Placement; 2] = [(10, 3, 2, 4, 7), (11, 1, 1, 1, 8)];
    let occupied = occupied_cells_by_teacher(&placements);
    let per_day = vec![(10, 3, 9), (10, 1, 2), (11, 2, 4), (10, 3, 10)];
    let row = board_teacher(&t, 9, &vec![(10, 11), (11, 4)], &per_day, &vec![Some(10), None, Some(10), Some(11)], &vec![slot(10, 2, 3)], &occupied);
    assert_eq!(row.teacher_name, "Ayşe Kaya");
    assert_eq!(row.branches, vec!["Dal A".to_string(), "Dal B".to_string()]);
    assert_eq!((row.capacity, row.assigned_hours, row.company_count), (9, 11, 2));
    assert!(row.is_over_capacity);
    assert_eq!(row.free_slots, vec!["2-3".to_string()]);
    assert_eq!(row.hours_per_day, vec![(1, 2), (3, 10)]);
    assert_eq!(row.days_over_cap, vec![3]);
    assert_eq!(row.occupied_by.len(), 3);
    assert_eq!(row.occupied_by.get("3-3"), Some(7));
    let warnings = board_warnings(&vec![row], true, 2);
    assert_eq!(
        warnings,
        vec![
            "Sınıfların işletme günleri tanımlanmamış. Müsaitlik Takvimi ekranından girin.".to_string(),
            "2 işletmenin saat takdiri girilmemiş. Dağıtımdan ÖNCE İşletme Saat Ayarları ekranından takdir edin.".to_string(),
        ]
    );
    assert_eq!(
        board_warnings(&vec![], false, 0),
        vec!["Aktif öğretmen yok. Dağıtım yapabilmek için Öğretmenler ekranından öğretmen ekleyin.".to_string()]
    );
}

#[test]
fn slot_keys_of_a_teacher_parse_and_skip_broken_ones() {
    let keys = vec!["1-2".to_string(), "bozuk".to_string(), "5-10".to_string()];
    assert_eq!(parse_slot_keys(&keys), vec![Slot::new(1, 2), Slot::new(5, 10)]);
}

#[test]
fn branches_round_trip_through_json_and_bad_json_reads_as_none() {
    let branches = vec!["Elektronik \"Haberleşme\"".to_string(), "Dal\\B".to_string()];
    let stored = encode_branches(&branches).unwrap();
    assert_eq!(decode_branches(&stored), branches);
    assert!(decode_branches("bozuk json").is_empty());
    assert!(decode_branches("").is_empty());
}

#[test]
fn loads_come_from_the_last_row_and_default_to_zero() {
    let row = |id: i64, base: i64, chief: &str| LoadRow {
        teacher_id: id,
        base_hours: base,
        max_extra_hours: 24,
        other_extra_hours: 2,
        chief_type: chief.into(),
        employment_type: "contracted".into(),
    };
    let rows = vec![row(1, 20, "none"), row(1, 18, "department"), row(2, 15, "workshop_lab")];
    let load = load_for_teacher(&rows, 1);
    assert_eq!(load.base_hours, 18);
    assert_eq!(load.chief_type.weekly_hours(), 10);
    let joined = with_loads(vec![teacher(2, "A", "B"), teacher(3, "C", "D")], &rows);
    assert_eq!(joined[0].load.chief_type.weekly_hours(), 6);
    assert_eq!(joined[1].load.base_hours, 0);
    assert_eq!(joined[1].teacher.id, 3);
}

#[test]
fn read_conditions_and_days() {
    assert_eq!(ReadAt::Latest.condition(2), "valid_to IS NULL");
    assert_eq!(ReadAt::AsOf(5).condition_with_alias("cp.", 2), "cp.valid_from <= ?2 AND (cp.valid_to IS NULL OR ?2 < cp.valid_to)");
    assert_eq!(ReadAt::AsOf(5).value(), Some(5));
    assert_eq!(ReadAt::Latest.value(), None);
    use_day_checks();
}

fn use_day_checks() {
    let d = |y: i32, m: u32, dd: u32| chrono::NaiveDate::from_ymd_opt(y, m, dd).unwrap().num_days_from_ce();
    assert_eq!(check_read_day(d(2026, 10, 1), d(2026, 9, 1), d(2027, 1, 31)).unwrap(), ReadAt::AsOf(d(2026, 10, 1)));
    assert_eq!(
        message(check_read_day(d(2027, 2, 1), d(2026, 9, 1), d(2027, 1, 31)).unwrap_err()),
        "Seçilen tarih dönem aralığında değil: dönem 2026-09-01 – 2027-01-31 arasındadır."
    );
}
