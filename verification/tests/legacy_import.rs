use typing_store::models::DailyTestResultRow;
use typing_store::models::MigrationPayload;
use typing_store::models::UserProfile;
use typing_store::storage::Database;
use typing_store::StorageError;

fn empty_payload() -> MigrationPayload {
    MigrationPayload {
        users: vec![],
        settings: vec![],
        stats: vec![],
        progress: vec![],
        courses: vec![],
        snippets: vec![],
        activity: vec![],
        daily_results: vec![],
    }
}

fn user(id: i64, name: &str, avatar: &str, created_at: &str) -> UserProfile {
    UserProfile {
        id,
        name: name.to_string(),
        avatar: avatar.to_string(),
        created_at: created_at.to_string(),
        last_active_at: None,
    }
}

#[test]
fn test_import_scenario_single_user_stats() {
    let mut db = Database::in_memory().unwrap();
    let mut payload = empty_payload();
    payload.users.push(user(1, "A", "x", "2024-01-01"));
    payload.stats.push(("1".to_string(), Some(r#"{"averageWpm":42}"#.to_string())));

    db.migrate_from_localstorage(&payload).unwrap();

    let users = db.get_all_users().unwrap();
    assert_eq!(users.len(), 1);
    assert_eq!(users[0].name, "A");

    let stats = db.get_user_stats(1).unwrap().unwrap();
    assert_eq!(stats.average_wpm, 42);
    assert_eq!(stats.total_practice_time, 0);
    assert_eq!(stats.total_words_typed, 0);
    assert_eq!(stats.average_accuracy, 0);
    assert_eq!(stats.average_true_accuracy, 0);
    assert_eq!(stats.total_keystrokes, 0);
    assert_eq!(stats.total_backspaces, 0);
    assert_eq!(stats.total_correct_keystrokes, 0);
    assert_eq!(stats.lessons_completed, 0);
    assert_eq!(stats.current_streak, 0);
    assert_eq!(stats.longest_streak, 0);
    assert!(stats.last_practice_date.is_none());
    assert_eq!(stats.problem_keys.len(), 0);
}

#[test]
fn test_import_missing_field_defaults_to_zero() {
    let mut db = Database::in_memory().unwrap();
    let mut payload = empty_payload();
    payload.users.push(user(1, "A", "x", "2024-01-01"));
    payload.stats.push(("1".to_string(), Some(r#"{"totalWordsTyped":10}"#.to_string())));

    db.migrate_from_localstorage(&payload).unwrap();

    let stats = db.get_user_stats(1).unwrap().unwrap();
    assert_eq!(stats.average_wpm, 0);
    assert_eq!(stats.total_words_typed, 10);
}

#[test]
fn test_import_malformed_stats_blob_skipped() {
    let mut db = Database::in_memory().unwrap();
    let mut payload = empty_payload();
    payload.users.push(user(1, "A", "x", "2024-01-01"));
    payload.users.push(user(2, "B", "y", "2024-01-02"));
    payload.stats.push(("1".to_string(), Some("not json at all".to_string())));
    payload.stats.push(("2".to_string(), Some(r#"{"averageWpm":7}"#.to_string())));
    payload.settings.push(("1".to_string(), Some(r#"{"theme":"dark"}"#.to_string())));

    db.migrate_from_localstorage(&payload).unwrap();

    // The malformed blob only loses that user's stats row.
    assert!(db.get_user_stats(1).unwrap().is_none());
    // The same user's other categories and other users still import.
    assert!(db.get_settings(1).unwrap().unwrap().contains("dark"));
    assert_eq!(db.get_user_stats(2).unwrap().unwrap().average_wpm, 7);
    assert_eq!(db.get_all_users().unwrap().len(), 2);
}

#[test]
fn test_import_problem_keys_and_bad_entries() {
    let mut db = Database::in_memory().unwrap();
    let mut payload = empty_payload();
    payload.users.push(user(1, "A", "x", "2024-01-01"));
    payload.stats.push((
        "1".to_string(),
        Some(r#"{"averageWpm":3,"problemKeys":[["q",10],["z",5],["bad"],[3,4],"junk"]}"#.to_string()),
    ));

    db.migrate_from_localstorage(&payload).unwrap();

    let stats = db.get_user_stats(1).unwrap().unwrap();
    assert_eq!(stats.problem_keys.len(), 2);
    assert_eq!(stats.problem_keys[0], ("q".to_string(), 10));
    assert_eq!(stats.problem_keys[1], ("z".to_string(), 5));
}

#[test]
fn test_import_unparseable_key_skipped() {
    let mut db = Database::in_memory().unwrap();
    let mut payload = empty_payload();
    payload.users.push(user(1, "A", "x", "2024-01-01"));
    payload.settings.push(("not-a-number".to_string(), Some("{}".to_string())));
    payload.settings.push(("1".to_string(), None));

    db.migrate_from_localstorage(&payload).unwrap();
    assert!(db.get_settings(1).unwrap().is_none());
}

#[test]
fn test_import_lesson_and_course_maps() {
    let mut db = Database::in_memory().unwrap();
    let mut payload = empty_payload();
    payload.users.push(user(1, "A", "x", "2024-01-01"));
    payload.progress.push((
        "1".to_string(),
        Some(
            r#"{"l1":{"completedTasks":2,"totalTasks":4,"bestWpm":33,"taskResults":[1,2]},"l2":{"lastTaskIndex":1}}"#.to_string(),
        ),
    ));
    payload.courses.push((
        "1".to_string(),
        Some(
            r#"{"c1":{"currentStageId":"s2","completedStages":["s1"],"enrolledAt":"2024-02-02"}}"#.to_string(),
        ),
    ));

    db.migrate_from_localstorage(&payload).unwrap();

    let mut lessons = db.get_all_lesson_progress(1).unwrap();
    lessons.sort_by(|a, b| a.lesson_id.cmp(&b.lesson_id));
    assert_eq!(lessons.len(), 2);
    assert_eq!(lessons[0].lesson_id, "l1");
    assert_eq!(lessons[0].completed_tasks, 2);
    assert_eq!(lessons[0].total_tasks, 4);
    assert_eq!(lessons[0].best_wpm, 33);
    assert_eq!(lessons[0].task_results_json, "[1,2]");
    assert_eq!(lessons[1].lesson_id, "l2");
    assert_eq!(lessons[1].last_task_index, Some(1));
    assert_eq!(lessons[1].task_results_json, "[]");

    let courses = db.get_all_course_progress(1).unwrap();
    assert_eq!(courses.len(), 1);
    assert_eq!(courses[0].course_id, "c1");
    assert_eq!(courses[0].current_stage_id.as_deref(), Some("s2"));
    assert_eq!(courses[0].completed_stages_json, r#"["s1"]"#);
    assert_eq!(courses[0].skipped_stages_json, "[]");
    assert_eq!(courses[0].enrolled_at, "2024-02-02");
    assert!(courses[0].completed_at.is_none());
}

#[test]
fn test_import_snippets_and_activity() {
    let mut db = Database::in_memory().unwrap();
    let mut payload = empty_payload();
    payload.users.push(user(1, "A", "x", "2024-01-01"));
    payload.snippets.push((
        "1".to_string(),
        Some(r#"[{"id":"s1","name":"N","content":"C","practiceCount":3}]"#.to_string()),
    ));
    payload.activity.push((
        "1".to_string(),
        Some(r#"{"2024-04-01":{"practiceTime":120000,"characters":500,"sessions":2}}"#.to_string()),
    ));

    db.migrate_from_localstorage(&payload).unwrap();

    let snippets = db.get_snippets(1).unwrap();
    assert_eq!(snippets.len(), 1);
    assert_eq!(snippets[0].id, "s1");
    assert_eq!(snippets[0].name, "N");
    assert_eq!(snippets[0].content, "C");
    assert_eq!(snippets[0].mode, "text");
    assert_eq!(snippets[0].practice_count, 3);
    assert!(snippets[0].best_wpm.is_none());

    let activity = db.get_activity(1).unwrap();
    assert_eq!(activity.len(), 1);
    assert_eq!(activity[0].date, "2024-04-01");
    assert_eq!(activity[0].practice_time, 120000);
    assert_eq!(activity[0].characters, 500);
    assert_eq!(activity[0].sessions, 2);
}

#[test]
fn test_import_preserves_fractional_numbers() {
    let mut db = Database::in_memory().unwrap();
    let mut payload = empty_payload();
    payload.users.push(user(1, "A", "x", "2024-01-01"));
    // A fractional rate inside an opaque sub-blob must survive the round
    // trip through the importer verbatim.
    payload.progress.push((
        "1".to_string(),
        Some(r#"{"l1":{"taskResults":[{"raw":18446744073709551615,"wpm":42.5}]}}"#.to_string()),
    ));

    db.migrate_from_localstorage(&payload).unwrap();
    let lessons = db.get_all_lesson_progress(1).unwrap();
    assert_eq!(lessons.len(), 1);
    assert!(lessons[0].task_results_json.contains("42.5"));
    assert!(lessons[0].task_results_json.contains("18446744073709551615"));
    assert!(!lessons[0].task_results_json.contains("null"));
}

#[test]
fn test_import_daily_results() {
    let mut db = Database::in_memory().unwrap();
    let mut payload = empty_payload();
    payload.users.push(user(1, "A", "x", "2024-01-01"));
    payload.daily_results.push(DailyTestResultRow {
        user_id: 1,
        date: "2024-04-01".to_string(),
        wpm: 40,
        accuracy: 90,
        true_accuracy: 88,
        duration: 60000,
        completed_at: 1700000000000,
    });

    db.migrate_from_localstorage(&payload).unwrap();
    let all = db.get_daily_results().unwrap();
    assert_eq!(all.len(), 1);
    assert_eq!(all[0].wpm, 40);
}

#[test]
fn test_import_is_idempotent() {
    let mut db = Database::in_memory().unwrap();
    let mut payload = empty_payload();
    payload.users.push(user(1, "A", "x", "2024-01-01"));
    payload.users.push(user(2, "B", "y", "2024-01-02"));
    payload.settings.push(("1".to_string(), Some(r#"{"theme":"dark"}"#.to_string())));
    payload.stats.push((
        "1".to_string(),
        Some(r#"{"averageWpm":42,"problemKeys":[["q",10]]}"#.to_string()),
    ));
    payload.progress.push(("1".to_string(), Some(r#"{"l1":{"completedTasks":1}}"#.to_string())));
    payload.courses.push(("2".to_string(), Some(r#"{"c1":{"enrolledAt":"e"}}"#.to_string())));
    payload.snippets.push(("2".to_string(), Some(r#"[{"id":"s1"}]"#.to_string())));
    payload.activity.push(("1".to_string(), Some(r#"{"d1":{"sessions":1}}"#.to_string())));
    payload.daily_results.push(DailyTestResultRow {
        user_id: 2,
        date: "2024-04-01".to_string(),
        wpm: 50,
        accuracy: 95,
        true_accuracy: 93,
        duration: 60000,
        completed_at: 1700000000000,
    });

    db.migrate_from_localstorage(&payload).unwrap();
    let users_once = db.get_all_users().unwrap().len();
    let stats_once = db.get_user_stats(1).unwrap().unwrap();
    let lessons_once = db.get_all_lesson_progress(1).unwrap().len();
    let courses_once = db.get_all_course_progress(2).unwrap().len();
    let snippets_once = db.get_snippets(2).unwrap().len();
    let activity_once = db.get_activity(1).unwrap().len();
    let daily_once = db.get_daily_results().unwrap().len();

    // Running the same import again changes no row count.
    db.migrate_from_localstorage(&payload).unwrap();
    assert_eq!(db.get_all_users().unwrap().len(), users_once);
    let stats_twice = db.get_user_stats(1).unwrap().unwrap();
    assert_eq!(stats_twice.average_wpm, stats_once.average_wpm);
    assert_eq!(stats_twice.problem_keys.len(), stats_once.problem_keys.len());
    assert_eq!(db.get_all_lesson_progress(1).unwrap().len(), lessons_once);
    assert_eq!(db.get_all_course_progress(2).unwrap().len(), courses_once);
    assert_eq!(db.get_snippets(2).unwrap().len(), snippets_once);
    assert_eq!(db.get_activity(1).unwrap().len(), activity_once);
    assert_eq!(db.get_daily_results().unwrap().len(), daily_once);
}

#[test]
fn test_import_does_not_overwrite_existing_user() {
    let mut db = Database::in_memory().unwrap();
    db.create_user(1, "Original", "cat", "2023-12-31").unwrap();
    let mut payload = empty_payload();
    payload.users.push(user(1, "Replacement", "x", "2024-01-01"));

    db.migrate_from_localstorage(&payload).unwrap();
    let users = db.get_all_users().unwrap();
    assert_eq!(users.len(), 1);
    assert_eq!(users[0].name, "Original");
}

#[test]
fn test_import_unknown_owner_rolls_back() {
    let mut db = Database::in_memory().unwrap();
    let mut payload = empty_payload();
    payload.users.push(user(1, "A", "x", "2024-01-01"));
    // User 7 exists neither in the store nor in the payload.
    payload.settings.push(("7".to_string(), Some("{}".to_string())));

    let err = db.migrate_from_localstorage(&payload).unwrap_err();
    assert_eq!(err, StorageError::ConstraintViolation);
    // Nothing was written, not even the valid user record.
    assert_eq!(db.get_all_users().unwrap().len(), 0);
    assert!(db.is_migration_needed().unwrap());
}
