use mesnet_lite::hours::merge_with_suggestions;
use mesnet_lite::teaching_load::{
    branch_hours_in_range, chief_planning_hours, groups_for_students, sum_branch_hours, BranchStudentCounts,
    PoolBreakdown, TermBranchHours,
};

fn saved(id: i64, grade: &str, branch: &str, weekly: i64, groups: i64) -> TermBranchHours {
    TermBranchHours {
        id,
        term: "2026-2027/1".into(),
        grade: grade.into(),
        branch: branch.into(),
        weekly_hours: weekly,
        group_count: groups,
        is_group_manual: true,
        created_at: "2026-09-01T00:00:00Z".into(),
        updated_at: "2026-09-01T00:00:00Z".into(),
    }
}

fn counts(entries: &[(&str, &str, i64)]) -> BranchStudentCounts {
    let mut c = BranchStudentCounts::new();
    for (grade, branch, n) in entries {
        c.insert(grade.to_string(), branch.to_string(), *n);
    }
    c
}

#[test]
fn merge_marks_saved_rows_as_not_suggested() {
    let existing = vec![saved(1, "12/C", "Elektronik Haberleşme", 24, 2)];
    let rows = merge_with_suggestions(existing, vec![], &BranchStudentCounts::new());

    assert_eq!(rows.len(), 1);
    assert_eq!(rows[0].id, Some(1));
    assert!(!rows[0].is_suggested);
}

#[test]
fn merge_adds_suggestion_for_branch_without_a_saved_row() {
    let rows = merge_with_suggestions(
        vec![],
        vec![("12/D".to_string(), "Endüstriyel Bakım Onarım".to_string())],
        &BranchStudentCounts::new(),
    );

    assert_eq!(rows.len(), 1);
    assert_eq!(rows[0].id, None);
    assert!(rows[0].is_suggested);
    assert_eq!(rows[0].weekly_hours, 0);
    assert_eq!(rows[0].group_count, 0);
}

#[test]
fn merge_does_not_duplicate_a_branch_that_already_has_a_saved_row() {
    let existing = vec![saved(1, "12/C", "Elektronik Haberleşme", 24, 2)];
    let rows = merge_with_suggestions(
        existing,
        vec![("12/C".to_string(), "Elektronik Haberleşme".to_string())],
        &BranchStudentCounts::new(),
    );

    assert_eq!(rows.len(), 1, "aynı çift için ikinci satır eklenmemeli");
    assert!(!rows[0].is_suggested);
}

#[test]
fn merge_sorts_rows_by_grade_then_branch() {
    let rows = merge_with_suggestions(
        vec![],
        vec![
            ("12/D".to_string(), "Dal B".to_string()),
            ("12/C".to_string(), "Dal A".to_string()),
        ],
        &BranchStudentCounts::new(),
    );

    assert_eq!(rows[0].grade, "12/C");
    assert_eq!(rows[1].grade, "12/D");
}

#[test]
fn merge_suggestion_carries_the_automatic_group_count_and_zero_hours() {
    let rows = merge_with_suggestions(
        vec![],
        vec![("12/D".to_string(), "Dal B".to_string())],
        &counts(&[("12/D", "Dal B", 17)]),
    );

    assert_eq!(rows.len(), 1);
    assert_eq!(rows[0].group_count, 2);
    assert_eq!(rows[0].auto_group_count, 2);
    assert!(!rows[0].is_group_manual);
    assert_eq!(rows[0].weekly_hours, 0);
}

#[test]
fn merge_automatic_saved_row_shows_the_computed_group_count_not_the_cache() {
    let mut stored = saved(1, "12/C", "Dal A", 24, 1);
    stored.is_group_manual = false;

    let rows = merge_with_suggestions(vec![stored], vec![], &counts(&[("12/C", "Dal A", 20)]));

    assert_eq!(rows[0].group_count, 2, "önbellek 1 ama 20 öğrenci ⇒ 2 grup");
    assert_eq!(rows[0].auto_group_count, 2);
    assert!(!rows[0].is_group_manual);
}

#[test]
fn merge_manual_saved_row_keeps_the_stored_count_and_still_reports_the_auto_one() {
    let rows = merge_with_suggestions(
        vec![saved(1, "12/C", "Dal A", 24, 3)],
        vec![],
        &counts(&[("12/C", "Dal A", 16)]),
    );

    assert_eq!(rows[0].group_count, 3);
    assert_eq!(rows[0].auto_group_count, 1);
    assert!(rows[0].is_group_manual);
}

#[test]
fn breakdown_total_is_the_sum_of_both_parts() {
    let breakdown = PoolBreakdown { branch_hours: 72, chief_planning_hours: 16 };
    assert_eq!(breakdown.total(), 88);
}

// --- further cases ---

#[test]
fn merge_keeps_equal_keys_in_order_with_saved_rows_first() {
    let rows = merge_with_suggestions(
        vec![saved(5, "12/D", "Dal", 10, 1), saved(3, "12/C", "Dal", 12, 2)],
        vec![("12/D".to_string(), "Dal".to_string()), ("12/C".to_string(), "Başka".to_string())],
        &BranchStudentCounts::new(),
    );
    let keys: Vec<(String, String, Option<i64>)> =
        rows.iter().map(|r| (r.grade.clone(), r.branch.clone(), r.id)).collect();
    assert_eq!(
        keys,
        vec![
            ("12/C".to_string(), "Başka".to_string(), None),
            ("12/C".to_string(), "Dal".to_string(), Some(3)),
            ("12/D".to_string(), "Dal".to_string(), Some(5)),
        ]
    );
}

#[test]
fn merge_compares_texts_by_characters() {
    let rows = merge_with_suggestions(
        vec![],
        vec![
            ("12/c".to_string(), "A".to_string()),
            ("12/C".to_string(), "Ç".to_string()),
            ("12/C".to_string(), "D".to_string()),
        ],
        &BranchStudentCounts::new(),
    );
    let branches: Vec<&str> = rows.iter().map(|r| r.branch.as_str()).collect();
    assert_eq!(branches, vec!["D", "Ç", "A"]);
}

#[test]
fn branch_hours_use_stored_groups_for_manual_rows_and_students_otherwise() {
    let mut automatic = saved(2, "11/A", "Elektrik", 10, 7);
    automatic.is_group_manual = false;
    let rows = vec![saved(1, "12/C", "Elektronik Haberleşme", 24, 2), automatic];
    let c = counts(&[("11/A", "Elektrik", 33)]);

    assert!(branch_hours_in_range(&rows, &c));
    // 24 × 2 (stored) + 10 × ceil(33 / 16) = 48 + 30
    assert_eq!(sum_branch_hours(&rows, &c), 78);
    assert_eq!(sum_branch_hours(&vec![], &c), 0);
}

#[test]
fn groups_follow_started_sixteen_students() {
    assert_eq!(groups_for_students(0), 0);
    assert_eq!(groups_for_students(-4), 0);
    assert_eq!(groups_for_students(1), 1);
    assert_eq!(groups_for_students(16), 1);
    assert_eq!(groups_for_students(17), 2);
    assert_eq!(groups_for_students(32), 2);
}

#[test]
fn branch_hours_out_of_range_are_reported() {
    let rows = vec![saved(1, "12/C", "Elektronik Haberleşme", i64::MAX, 2)];
    assert!(!branch_hours_in_range(&rows, &BranchStudentCounts::new()));

    let rows = vec![
        saved(1, "12/C", "Elektronik Haberleşme", i64::MAX / 2 + 1, 1),
        saved(2, "12/D", "Elektrik", i64::MAX / 2 + 1, 1),
    ];
    assert!(!branch_hours_in_range(&rows, &BranchStudentCounts::new()));
}

#[test]
fn chief_hours_count_department_ten_and_workshop_six() {
    let chiefs = vec!["department".to_string(), "workshop_lab".to_string(), "none".to_string(), "???".to_string()];
    assert_eq!(chief_planning_hours(&chiefs), 16);
    let pool = PoolBreakdown { branch_hours: 78, chief_planning_hours: 16 };
    assert_eq!(pool.total(), 94);
}
