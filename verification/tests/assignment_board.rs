use mesnet_lite::board::assignment_board;
use mesnet_lite::assignment::{
    occupied_cells_by_teacher, parse_slot_key, slot_key_of, violation_to_warning, Placement,
};
use mesnet_lite::model::{Slot, Violation};
use mesnet_lite::settings::{parse_hour_setting, Settings};

fn settings_map(pairs: &[(&str, &str)]) -> Settings {
    let mut all = Settings::new();
    for (k, v) in pairs {
        all.insert(k.to_string(), v.to_string());
    }
    all
}

#[test]
fn assignment_commands_occupied_cells_by_teacher_expands_a_multi_hour_block() {
    let placements: [Placement; 1] = [(1, 2, 3, 5, 100)];
    let occupied = occupied_cells_by_teacher(&placements);

    let teacher_cells = occupied.get(1).unwrap();
    assert_eq!(teacher_cells.len(), 3);
    assert_eq!(teacher_cells.get("2-3"), Some(100));
    assert_eq!(teacher_cells.get("2-4"), Some(100));
    assert_eq!(teacher_cells.get("2-5"), Some(100));
}

#[test]
fn assignment_commands_occupied_cells_by_teacher_handles_a_single_cell_block() {
    let placements: [Placement; 1] = [(1, 1, 9, 9, 200)];
    let occupied = occupied_cells_by_teacher(&placements);

    assert_eq!(occupied.get(1).unwrap().len(), 1);
    assert_eq!(occupied.get(1).unwrap().get("1-9"), Some(200));
}

#[test]
fn assignment_commands_occupied_cells_by_teacher_keeps_teachers_separate() {
    let placements: [Placement; 2] = [(1, 1, 9, 10, 100), (2, 1, 9, 9, 200)];
    let occupied = occupied_cells_by_teacher(&placements);

    assert_eq!(occupied.len(), 2);
    assert_eq!(occupied.get(1).unwrap().get("1-9"), Some(100));
    assert_eq!(occupied.get(2).unwrap().get("1-9"), Some(200));
}

#[test]
fn assignment_commands_occupied_cells_by_teacher_is_empty_for_no_placements() {
    assert!(occupied_cells_by_teacher(&[]).is_empty());
}

#[test]
fn assignment_commands_hour_settings_fall_back_when_missing_or_invalid() {
    let all = settings_map(&[("day_start_hour", "9"), ("day_end_hour", "bozuk")]);

    assert_eq!(parse_hour_setting(&all, "day_start_hour", 8), 9);
    assert_eq!(parse_hour_setting(&all, "day_end_hour", 17), 17);
    assert_eq!(parse_hour_setting(&all, "yok", 5), 5);
}

#[test]
fn assignment_commands_slot_keys_round_trip() {
    assert_eq!(parse_slot_key("3-10"), Some(Slot::new(3, 10)));
    assert_eq!(parse_slot_key("1-8"), Some(Slot::new(1, 8)));
}

#[test]
fn assignment_commands_malformed_slot_keys_are_ignored() {
    assert_eq!(parse_slot_key("bozuk"), None);
    assert_eq!(parse_slot_key("a-b"), None);
    assert_eq!(parse_slot_key(""), None);
}

#[test]
fn assignment_commands_tests_occupied_cells_by_teacher_expands_a_multi_hour_block() {
    let placements: [Placement; 1] = [(1, 2, 3, 5, 100)];
    let occupied = occupied_cells_by_teacher(&placements);

    let teacher_cells = occupied.get(1).unwrap();
    assert_eq!(teacher_cells.len(), 3);
    assert_eq!(teacher_cells.get("2-3"), Some(100));
    assert_eq!(teacher_cells.get("2-4"), Some(100));
    assert_eq!(teacher_cells.get("2-5"), Some(100));
}

#[test]
fn assignment_commands_tests_occupied_cells_by_teacher_handles_a_single_cell_block() {
    let placements: [Placement; 1] = [(1, 1, 9, 9, 200)];
    let occupied = occupied_cells_by_teacher(&placements);

    assert_eq!(occupied.get(1).unwrap().len(), 1);
    assert_eq!(occupied.get(1).unwrap().get("1-9"), Some(200));
}

#[test]
fn assignment_commands_tests_occupied_cells_by_teacher_keeps_teachers_separate() {
    let placements: [Placement; 2] = [(1, 1, 9, 10, 100), (2, 1, 9, 9, 200)];
    let occupied = occupied_cells_by_teacher(&placements);

    assert_eq!(occupied.len(), 2);
    assert_eq!(occupied.get(1).unwrap().get("1-9"), Some(100));
    assert_eq!(occupied.get(2).unwrap().get("1-9"), Some(200));
}

#[test]
fn assignment_commands_tests_occupied_cells_by_teacher_is_empty_for_no_placements() {
    assert!(occupied_cells_by_teacher(&[]).is_empty());
}

#[test]
fn assignment_commands_tests_slot_keys_round_trip() {
    assert_eq!(parse_slot_key("3-10"), Some(Slot::new(3, 10)));
    assert_eq!(parse_slot_key("1-8"), Some(Slot::new(1, 8)));
}

#[test]
fn assignment_commands_tests_malformed_slot_keys_are_ignored() {
    assert_eq!(parse_slot_key("bozuk"), None);
    assert_eq!(parse_slot_key("a-b"), None);
    assert_eq!(parse_slot_key(""), None);
}

#[test]
fn availability_commands_hour_settings_fall_back_when_missing_or_invalid() {
    let all = settings_map(&[("day_start_hour", "9"), ("day_end_hour", "bozuk")]);

    assert_eq!(parse_hour_setting(&all, "day_start_hour", 8), 9);
    assert_eq!(parse_hour_setting(&all, "day_end_hour", 17), 17);
}

#[test]
fn missing_settings_use_the_fallback() {
    assert_eq!(parse_hour_setting(&Settings::new(), "day_start_hour", 8), 8);
}

// --- further cases ---

#[test]
fn a_later_block_overrides_a_shared_cell() {
    let placements: [Placement; 2] = [(1, 2, 3, 4, 100), (1, 2, 4, 6, 300)];
    let occupied = occupied_cells_by_teacher(&placements);
    let cells = occupied.get(1).unwrap();
    assert_eq!(cells.len(), 4);
    assert_eq!(cells.get("2-3"), Some(100));
    assert_eq!(cells.get("2-4"), Some(300));
    assert_eq!(cells.get("2-6"), Some(300));
    assert_eq!(cells.get("2-7"), None);
}

#[test]
fn an_empty_block_still_opens_an_entry_for_its_teacher() {
    let placements: [Placement; 1] = [(7, 1, 5, 4, 100)];
    let occupied = occupied_cells_by_teacher(&placements);
    assert_eq!(occupied.len(), 1);
    assert_eq!(occupied.get(7).unwrap().len(), 0);
    assert!(occupied.get(8).is_none());
}

#[test]
fn slot_key_reads_back_for_a_non_negative_day() {
    for (day, hour) in [(0, 0), (1, 8), (5, -3), (12, 345)] {
        let key = slot_key_of(day, hour);
        assert_eq!(parse_slot_key(&key), Some(Slot::new(day, hour)));
    }
    assert_eq!(slot_key_of(3, 10), "3-10");
}

#[test]
fn slot_key_with_a_negative_day_does_not_read_back() {
    let key = slot_key_of(-1, 5);
    assert_eq!(key, "-1-5");
    assert_eq!(parse_slot_key(&key), None);
}

#[test]
fn hour_setting_is_trimmed_and_may_carry_a_sign() {
    let all = settings_map(&[("a", "  12 "), ("b", "+7"), ("c", "-2"), ("d", "1 2"), ("a", "14")]);
    assert_eq!(parse_hour_setting(&all, "a", 0), 14);
    assert_eq!(parse_hour_setting(&all, "b", 0), 7);
    assert_eq!(parse_hour_setting(&all, "c", 0), -2);
    assert_eq!(parse_hour_setting(&all, "d", 3), 3);
}

#[test]
fn violation_warning_adds_the_legal_basis_in_parentheses() {
    let with_basis = Violation { message: "Havuz aşıldı".to_string(), legal_basis: Some("OÖKY MADDE 88".to_string()) };
    assert_eq!(violation_to_warning(&with_basis), "Havuz aşıldı (OÖKY MADDE 88).");
    let without = Violation { message: "Kapasite aşıldı".to_string(), legal_basis: None };
    assert_eq!(violation_to_warning(&without), "Kapasite aşıldı.");
}

#[test]
fn board_hours_default_to_one_through_ten_when_max_daily_lessons_is_unset() {
    let board = assignment_board("2026-2027/1".into(), &Settings::new(), &vec![], &vec![], 0, 0, false);
    assert_eq!(board.day_start_hour, 1);
    assert_eq!(board.day_end_hour, 10);
}

#[test]
fn board_hours_follow_the_max_daily_lessons_setting() {
    let all = settings_map(&[("max_daily_lessons", "6")]);
    let board = assignment_board("2026-2027/1".into(), &all, &vec![], &vec![], 0, 0, false);
    assert_eq!(board.day_start_hour, 1);
    assert_eq!(board.day_end_hour, 7);
}

#[test]
fn an_empty_board_counts_nothing_and_asks_for_teachers_and_class_days() {
    let board = assignment_board("2026-2027/1".into(), &Settings::new(), &vec![], &vec![], 40, 12, true);
    assert_eq!(board.term, "2026-2027/1");
    assert_eq!(board.pool_hours, 40);
    assert_eq!(board.assigned_hours, 12);
    assert_eq!(board.remaining_hours, 28);
    assert_eq!(board.total_company_count, 0);
    assert_eq!(
        board.warnings,
        vec![
            "Aktif öğretmen yok. Dağıtım yapabilmek için Öğretmenler ekranından öğretmen ekleyin.".to_string(),
            "Sınıfların işletme günleri tanımlanmamış. Müsaitlik Takvimi ekranından girin.".to_string(),
        ]
    );
    let bad = settings_map(&[("max_daily_lessons", "yok")]);
    let board = assignment_board("x".into(), &bad, &vec![], &vec![], 0, 0, false);
    assert_eq!(board.day_end_hour, 10);
    assert_eq!(board.warnings.len(), 1);
}
