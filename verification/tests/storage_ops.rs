use typing_store::models::CourseProgressRow;
use typing_store::models::CustomSnippetRow;
use typing_store::models::DailyActivityRow;
use typing_store::models::DailyTestResultRow;
use typing_store::models::LessonProgressRow;
use typing_store::models::UserStatsRow;
use typing_store::storage::Database;
use typing_store::StorageError;

#[test]
fn test_schema_creation() {
    let db = Database::in_memory().unwrap();
    assert_eq!(db.get_schema_version(), 1);
}

#[test]
fn test_user_crud() {
    let mut db = Database::in_memory().unwrap();

    db.create_user(1, "Alice", "cat", "2024-01-01T00:00:00Z").unwrap();
    db.create_user(2, "Bob", "dog", "2024-01-02T00:00:00Z").unwrap();

    let users = db.get_all_users().unwrap();
    assert_eq!(users.len(), 2);
    assert_eq!(users[0].name, "Alice");
    assert_eq!(users[1].name, "Bob");

    db.update_user(1, Some("Alice Updated"), None, None).unwrap();
    let users = db.get_all_users().unwrap();
    assert_eq!(users[0].name, "Alice Updated");

    db.delete_user(1).unwrap();
    let users = db.get_all_users().unwrap();
    assert_eq!(users.len(), 1);
    assert_eq!(users[0].name, "Bob");
}

#[test]
fn test_settings() {
    let mut db = Database::in_memory().unwrap();
    db.create_user(1, "Test", "cat", "2024-01-01").unwrap();

    assert!(db.get_settings(1).unwrap().is_none());

    db.save_settings(1, r#"{"fontSize":24}"#).unwrap();
    let settings = db.get_settings(1).unwrap().unwrap();
    assert!(settings.contains("fontSize"));

    // Update
    db.save_settings(1, r#"{"fontSize":32}"#).unwrap();
    let settings = db.get_settings(1).unwrap().unwrap();
    assert!(settings.contains("32"));
}

#[test]
fn test_user_stats() {
    let mut db = Database::in_memory().unwrap();
    db.create_user(1, "Test", "cat", "2024-01-01").unwrap();

    assert!(db.get_user_stats(1).unwrap().is_none());

    let stats = UserStatsRow {
        total_practice_time: 3600000,
        total_words_typed: 1000,
        average_wpm: 50,
        average_accuracy: 95,
        average_true_accuracy: 92,
        total_keystrokes: 5000,
        total_backspaces: 100,
        total_correct_keystrokes: 4900,
        lessons_completed: 5,
        current_streak: 3,
        longest_streak: 7,
        last_practice_date: Some("2024-06-01".to_string()),
        problem_keys: vec![("q".to_string(), 10), ("z".to_string(), 5)],
    };
    db.save_user_stats(1, &stats).unwrap();

    let loaded = db.get_user_stats(1).unwrap().unwrap();
    assert_eq!(loaded.total_practice_time, 3600000);
    assert_eq!(loaded.average_wpm, 50);
    assert_eq!(loaded.problem_keys.len(), 2);
    assert_eq!(loaded.problem_keys[0].0, "q");
}

#[test]
fn test_cascade_delete() {
    let mut db = Database::in_memory().unwrap();
    db.create_user(1, "Test", "cat", "2024-01-01").unwrap();
    db.save_settings(1, r#"{"fontSize":24}"#).unwrap();

    let stats = UserStatsRow {
        total_practice_time: 100,
        total_words_typed: 10,
        average_wpm: 50,
        average_accuracy: 95,
        average_true_accuracy: 92,
        total_keystrokes: 50,
        total_backspaces: 5,
        total_correct_keystrokes: 45,
        lessons_completed: 1,
        current_streak: 1,
        longest_streak: 1,
        last_practice_date: None,
        problem_keys: vec![("a".to_string(), 1)],
    };
    db.save_user_stats(1, &stats).unwrap();

    // Delete user should cascade
    db.delete_user(1).unwrap();
    assert!(db.get_settings(1).unwrap().is_none());
    assert!(db.get_user_stats(1).unwrap().is_none());
}

#[test]
fn test_migration_needed() {
    let mut db = Database::in_memory().unwrap();
    assert!(db.is_migration_needed().unwrap());

    db.create_user(1, "Test", "cat", "2024-01-01").unwrap();
    assert!(!db.is_migration_needed().unwrap());
}

#[test]
fn test_duplicate_user_rejected() {
    let mut db = Database::in_memory().unwrap();
    db.create_user(1, "Alice", "cat", "2024-01-01").unwrap();
    let err = db.create_user(1, "Clone", "dog", "2024-01-02").unwrap_err();
    assert_eq!(err, StorageError::ConstraintViolation);
    let users = db.get_all_users().unwrap();
    assert_eq!(users.len(), 1);
    assert_eq!(users[0].name, "Alice");
}

#[test]
fn test_child_write_needs_user() {
    let mut db = Database::in_memory().unwrap();
    let err = db.save_settings(7, r#"{"a":1}"#).unwrap_err();
    assert_eq!(err, StorageError::ConstraintViolation);
    assert!(db.get_settings(7).unwrap().is_none());
}

#[test]
fn test_update_missing_user_is_noop() {
    let mut db = Database::in_memory().unwrap();
    db.create_user(2, "Bob", "dog", "2024-01-02").unwrap();
    db.update_user(9, Some("Ghost"), None, None).unwrap();
    let users = db.get_all_users().unwrap();
    assert_eq!(users.len(), 1);
    assert_eq!(users[0].name, "Bob");
}

#[test]
fn test_partial_update_keeps_other_fields() {
    let mut db = Database::in_memory().unwrap();
    db.create_user(1, "Alice", "cat", "2024-01-01").unwrap();
    db.update_user(1, None, None, Some("2024-05-05")).unwrap();
    db.update_user(1, Some("X"), None, None).unwrap();
    let users = db.get_all_users().unwrap();
    assert_eq!(users[0].name, "X");
    assert_eq!(users[0].avatar, "cat");
    assert_eq!(users[0].last_active_at.as_deref(), Some("2024-05-05"));
    assert_eq!(users[0].created_at, "2024-01-01");
}

#[test]
fn test_full_replace_lesson_progress() {
    let mut db = Database::in_memory().unwrap();
    db.create_user(1, "Alice", "cat", "2024-01-01").unwrap();

    let rows = vec![
        LessonProgressRow {
            lesson_id: "l1".to_string(),
            completed_tasks: 2,
            total_tasks: 4,
            best_wpm: 33,
            average_accuracy: 90,
            last_task_index: Some(1),
            task_results_json: "[]".to_string(),
        },
        LessonProgressRow {
            lesson_id: "l2".to_string(),
            completed_tasks: 1,
            total_tasks: 3,
            best_wpm: 20,
            average_accuracy: 80,
            last_task_index: None,
            task_results_json: "[]".to_string(),
        },
    ];
    db.save_lesson_progress(1, &rows).unwrap();
    assert_eq!(db.get_all_lesson_progress(1).unwrap().len(), 2);

    // The caller owns the full state: saving the empty set clears the user.
    db.save_lesson_progress(1, &vec![]).unwrap();
    assert_eq!(db.get_all_lesson_progress(1).unwrap().len(), 0);

    // A failing save leaves the prior row set intact.
    db.save_lesson_progress(1, &rows).unwrap();
    let dup = vec![rows[0].clone(), rows[0].clone()];
    let err = db.save_lesson_progress(1, &dup).unwrap_err();
    assert_eq!(err, StorageError::ConstraintViolation);
    let kept = db.get_all_lesson_progress(1).unwrap();
    assert_eq!(kept.len(), 2);
    assert_eq!(kept[0].lesson_id, "l1");
    assert_eq!(kept[1].lesson_id, "l2");
}

#[test]
fn test_full_replace_scopes_to_one_user() {
    let mut db = Database::in_memory().unwrap();
    db.create_user(1, "Alice", "cat", "2024-01-01").unwrap();
    db.create_user(2, "Bob", "dog", "2024-01-02").unwrap();

    let row = |id: &str| LessonProgressRow {
        lesson_id: id.to_string(),
        completed_tasks: 0,
        total_tasks: 1,
        best_wpm: 0,
        average_accuracy: 0,
        last_task_index: None,
        task_results_json: "[]".to_string(),
    };
    db.save_lesson_progress(1, &vec![row("a")]).unwrap();
    db.save_lesson_progress(2, &vec![row("b")]).unwrap();
    db.save_lesson_progress(1, &vec![]).unwrap();
    assert_eq!(db.get_all_lesson_progress(1).unwrap().len(), 0);
    let bobs = db.get_all_lesson_progress(2).unwrap();
    assert_eq!(bobs.len(), 1);
    assert_eq!(bobs[0].lesson_id, "b");
}

#[test]
fn test_course_progress_ops() {
    let mut db = Database::in_memory().unwrap();
    db.create_user(1, "Alice", "cat", "2024-01-01").unwrap();
    let rows = vec![
        CourseProgressRow {
            course_id: "c1".to_string(),
            current_stage_id: Some("s2".to_string()),
            completed_stages_json: "[\"s1\"]".to_string(),
            skipped_stages_json: "[]".to_string(),
            enrolled_at: "2024-02-02".to_string(),
            completed_at: None,
        },
        CourseProgressRow {
            course_id: "c2".to_string(),
            current_stage_id: None,
            completed_stages_json: "[]".to_string(),
            skipped_stages_json: "[]".to_string(),
            enrolled_at: "2024-02-03".to_string(),
            completed_at: Some("2024-03-03".to_string()),
        },
    ];
    db.save_course_progress(1, &rows).unwrap();
    assert_eq!(db.get_all_course_progress(1).unwrap().len(), 2);

    db.delete_course_progress(1, "c1").unwrap();
    let left = db.get_all_course_progress(1).unwrap();
    assert_eq!(left.len(), 1);
    assert_eq!(left[0].course_id, "c2");

    db.delete_all_course_progress(1).unwrap();
    assert_eq!(db.get_all_course_progress(1).unwrap().len(), 0);
}

#[test]
fn test_snippets_ops() {
    let mut db = Database::in_memory().unwrap();
    db.create_user(1, "Alice", "cat", "2024-01-01").unwrap();
    db.create_user(2, "Bob", "dog", "2024-01-02").unwrap();

    let snip = |id: &str, uid: i64| CustomSnippetRow {
        id: id.to_string(),
        user_id: uid,
        name: "n".to_string(),
        content: "c".to_string(),
        language: None,
        mode: "text".to_string(),
        created_at: "2024-01-05".to_string(),
        practice_count: 0,
        best_wpm: None,
        best_accuracy: None,
    };
    db.save_snippets(1, &vec![snip("x", 1)]).unwrap();
    db.save_snippets(2, &vec![snip("y", 2)]).unwrap();
    assert_eq!(db.get_snippets(1).unwrap().len(), 1);

    // Snippet ids are unique across the whole table.
    let err = db.save_snippets(2, &vec![snip("x", 2)]).unwrap_err();
    assert_eq!(err, StorageError::ConstraintViolation);
    let bobs = db.get_snippets(2).unwrap();
    assert_eq!(bobs.len(), 1);
    assert_eq!(bobs[0].id, "y");
}

#[test]
fn test_daily_results_global_replace() {
    let mut db = Database::in_memory().unwrap();
    db.create_user(1, "Alice", "cat", "2024-01-01").unwrap();
    db.create_user(2, "Bob", "dog", "2024-01-02").unwrap();

    let row = |uid: i64, date: &str, wpm: i64| DailyTestResultRow {
        user_id: uid,
        date: date.to_string(),
        wpm,
        accuracy: 90,
        true_accuracy: 88,
        duration: 60000,
        completed_at: 1700000000000,
    };
    db.save_daily_results(&vec![row(1, "2024-04-01", 40), row(2, "2024-04-01", 50)]).unwrap();
    assert_eq!(db.get_daily_results().unwrap().len(), 2);

    // The whole table is rewritten, for all users.
    db.save_daily_results(&vec![row(1, "2024-04-02", 45)]).unwrap();
    let all = db.get_daily_results().unwrap();
    assert_eq!(all.len(), 1);
    assert_eq!(all[0].date, "2024-04-02");
}

#[test]
fn test_activity_ops() {
    let mut db = Database::in_memory().unwrap();
    db.create_user(1, "Alice", "cat", "2024-01-01").unwrap();
    let rows = vec![
        DailyActivityRow {
            date: "2024-04-01".to_string(),
            practice_time: 120000,
            characters: 500,
            sessions: 2,
        },
        DailyActivityRow {
            date: "2024-04-02".to_string(),
            practice_time: 60000,
            characters: 250,
            sessions: 1,
        },
    ];
    db.save_activity(1, &rows).unwrap();
    let got = db.get_activity(1).unwrap();
    assert_eq!(got.len(), 2);
    assert_eq!(got[0].characters, 500);

    db.delete_activity(1).unwrap();
    assert_eq!(db.get_activity(1).unwrap().len(), 0);
}

#[test]
fn test_reads_are_sorted() {
    let mut db = Database::in_memory().unwrap();
    db.create_user(5, "Eve", "owl", "2024-01-05").unwrap();
    db.create_user(2, "Bob", "dog", "2024-01-02").unwrap();

    // Users come back by ascending id, not creation order.
    let users = db.get_all_users().unwrap();
    assert_eq!(users[0].id, 2);
    assert_eq!(users[1].id, 5);

    // Problem keys come back by descending error count.
    let stats = UserStatsRow {
        total_practice_time: 0,
        total_words_typed: 0,
        average_wpm: 0,
        average_accuracy: 0,
        average_true_accuracy: 0,
        total_keystrokes: 0,
        total_backspaces: 0,
        total_correct_keystrokes: 0,
        lessons_completed: 0,
        current_streak: 0,
        longest_streak: 0,
        last_practice_date: None,
        problem_keys: vec![("a".to_string(), 1), ("b".to_string(), 9)],
    };
    db.save_user_stats(2, &stats).unwrap();
    let loaded = db.get_user_stats(2).unwrap().unwrap();
    assert_eq!(loaded.problem_keys, vec![("b".to_string(), 9), ("a".to_string(), 1)]);

    // Daily results come back by (date, user id) ascending.
    let daily = |uid: i64, date: &str| DailyTestResultRow {
        user_id: uid,
        date: date.to_string(),
        wpm: 1,
        accuracy: 1,
        true_accuracy: 1,
        duration: 1,
        completed_at: 1,
    };
    db.save_daily_results(&vec![
        daily(5, "2024-04-02"),
        daily(5, "2024-04-01"),
        daily(2, "2024-04-02"),
    ])
    .unwrap();
    let all = db.get_daily_results().unwrap();
    assert_eq!(all[0].date, "2024-04-01");
    assert_eq!(all[1].date, "2024-04-02");
    assert_eq!(all[1].user_id, 2);
    assert_eq!(all[2].user_id, 5);

    // Activity comes back by ascending date.
    let act = |date: &str| DailyActivityRow {
        date: date.to_string(),
        practice_time: 1,
        characters: 1,
        sessions: 1,
    };
    db.save_activity(2, &vec![act("2024-04-03"), act("2024-04-01")]).unwrap();
    let got = db.get_activity(2).unwrap();
    assert_eq!(got[0].date, "2024-04-01");
    assert_eq!(got[1].date, "2024-04-03");

    // Snippets come back by ascending creation timestamp.
    let snip = |id: &str, created: &str| CustomSnippetRow {
        id: id.to_string(),
        user_id: 2,
        name: "n".to_string(),
        content: "c".to_string(),
        language: None,
        mode: "text".to_string(),
        created_at: created.to_string(),
        practice_count: 0,
        best_wpm: None,
        best_accuracy: None,
    };
    db.save_snippets(2, &vec![snip("later", "2024-03-09"), snip("earlier", "2024-03-01")])
        .unwrap();
    let snippets = db.get_snippets(2).unwrap();
    assert_eq!(snippets[0].id, "earlier");
    assert_eq!(snippets[1].id, "later");
}

#[test]
fn test_cascade_reaches_every_child() {
    let mut db = Database::in_memory().unwrap();
    db.create_user(1, "Alice", "cat", "2024-01-01").unwrap();
    db.create_user(2, "Bob", "dog", "2024-01-02").unwrap();
    db.save_settings(1, "{}").unwrap();
    db.save_settings(2, "{}").unwrap();
    db.save_lesson_progress(
        1,
        &vec![LessonProgressRow {
            lesson_id: "l".to_string(),
            completed_tasks: 0,
            total_tasks: 0,
            best_wpm: 0,
            average_accuracy: 0,
            last_task_index: None,
            task_results_json: "[]".to_string(),
        }],
    )
    .unwrap();
    db.save_activity(
        1,
        &vec![DailyActivityRow {
            date: "2024-04-01".to_string(),
            practice_time: 1,
            characters: 1,
            sessions: 1,
        }],
    )
    .unwrap();
    db.save_daily_results(&vec![DailyTestResultRow {
        user_id: 1,
        date: "2024-04-01".to_string(),
        wpm: 1,
        accuracy: 1,
        true_accuracy: 1,
        duration: 1,
        completed_at: 1,
    }])
    .unwrap();

    db.delete_user(1).unwrap();
    assert!(db.get_settings(1).unwrap().is_none());
    assert_eq!(db.get_all_lesson_progress(1).unwrap().len(), 0);
    assert_eq!(db.get_activity(1).unwrap().len(), 0);
    assert_eq!(db.get_daily_results().unwrap().len(), 0);
    // Rows of other users stay.
    assert!(db.get_settings(2).unwrap().is_some());
    assert_eq!(db.get_all_users().unwrap().len(), 1);
}
