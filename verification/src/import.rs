//! The one-time legacy import pipeline: normalizes a flat payload of user
//! records, per-user JSON blobs and daily results into the relational store,
//! inside one atomic unit of work.
//!
//! Every write is insert-if-absent, so a re-run changes nothing. Field- and
//! record-level parsing problems are defaulted or skipped; only a foreign-key
//! violation (a child row for a user that would not exist) fails the whole
//! import, leaving the store untouched.

use vstd::prelude::*;

use crate::json::obj_lookup;
use crate::json::spec_field_i64;
use crate::json::spec_field_opt_i64;
use crate::json::spec_field_opt_str;
use crate::json::spec_json_parse;
use crate::json::spec_json_text;
use crate::json::spec_parse_i64;
use crate::json::JsonVal;
use crate::models::DailyActivityRow;
use crate::models::DailyTestResultRow;
use crate::models::MigrationPayload;
use crate::models::UserProfile;
use crate::storage::has_activity;
use crate::storage::has_daily;
use crate::storage::has_pkey;
use crate::storage::has_settings;
use crate::storage::has_stats;
use crate::storage::has_user_id;
use crate::storage::ActivityEntry;
use crate::storage::CourseEntry;
use crate::storage::Database;
use crate::storage::LessonEntry;
use crate::storage::ProblemKeyEntry;
use crate::storage::SettingsEntry;
use crate::storage::UserStatsEntry;
use crate::StorageError;

verus! {

// ── Spec: inserting users if absent ─────────────────────────────────────

pub open spec fn add_user_if_absent(users: Seq<UserProfile>, u: UserProfile) -> Seq<UserProfile> {
    if has_user_id(users, u.id) {
        users
    } else {
        users.push(u)
    }
}

/// The users table after inserting every payload record if absent, in order.
pub open spec fn import_users(users: Seq<UserProfile>, adds: Seq<UserProfile>) -> Seq<UserProfile>
    decreases adds.len(),
{
    if adds.len() == 0 {
        users
    } else {
        import_users(add_user_if_absent(users, adds[0]), adds.drop_first())
    }
}

/// Membership in the imported users table.
pub proof fn lemma_import_users_has(u: Seq<UserProfile>, a: Seq<UserProfile>, id: i64)
    ensures
        has_user_id(import_users(u, a), id) <==> (has_user_id(u, id) || exists|k: int|
            0 <= k < a.len() && a[k].id == id),
    decreases a.len(),
{
    if a.len() > 0 {
        let u1 = add_user_if_absent(u, a[0]);
        lemma_import_users_has(u1, a.drop_first(), id);
        // Membership in one insert-if-absent step.
        if !has_user_id(u, a[0].id) {
            assert(u1[u.len() as int].id == a[0].id);
            assert forall|j: int| 0 <= j < u.len() implies u1[j] == u[j] by {}
        }
        if has_user_id(u1, id) && !has_user_id(u, id) {
            assert(id == a[0].id);
        }
        if has_user_id(u, id) {
            let w = choose|w: int| 0 <= w < u.len() && u[w].id == id;
            assert(u1[w].id == id);
        }
        if exists|k: int| 0 <= k < a.len() && a[k].id == id {
            let k = choose|k: int| 0 <= k < a.len() && a[k].id == id;
            if k == 0 {
                if has_user_id(u, a[0].id) {
                } else {
                    assert(u1[u.len() as int].id == id);
                }
            } else {
                assert(a.drop_first()[k - 1].id == id);
            }
        }
    }
}

// ── Spec: per-category folds ────────────────────────────────────────────

pub open spec fn settings_step(tbl: Seq<SettingsEntry>, e: (String, Option<String>)) -> Seq<
    SettingsEntry,
> {
    match spec_parse_i64(e.0@) {
        Some(uid) => match e.1 {
            Some(json) => if has_settings(tbl, uid) {
                tbl
            } else {
                tbl.push(SettingsEntry { user_id: uid, settings_json: json })
            },
            None => tbl,
        },
        None => tbl,
    }
}

pub open spec fn import_settings(tbl: Seq<SettingsEntry>, entries: Seq<(String, Option<String>)>) -> Seq<SettingsEntry>
    decreases entries.len(),
{
    if entries.len() == 0 {
        tbl
    } else {
        import_settings(settings_step(tbl, entries[0]), entries.drop_first())
    }
}

/// The stats row read from a legacy blob, every field defaulting on its own.
pub open spec fn stats_entry_from_json(uid: i64, v: JsonVal) -> UserStatsEntry {
    UserStatsEntry {
        user_id: uid,
        total_practice_time: spec_field_i64(v, "totalPracticeTime"@),
        total_words_typed: spec_field_i64(v, "totalWordsTyped"@),
        average_wpm: spec_field_i64(v, "averageWpm"@),
        average_accuracy: spec_field_i64(v, "averageAccuracy"@),
        average_true_accuracy: spec_field_i64(v, "averageTrueAccuracy"@),
        total_keystrokes: spec_field_i64(v, "totalKeystrokes"@),
        total_backspaces: spec_field_i64(v, "totalBackspaces"@),
        total_correct_keystrokes: spec_field_i64(v, "totalCorrectKeystrokes"@),
        lessons_completed: spec_field_i64(v, "lessonsCompleted"@),
        current_streak: spec_field_i64(v, "currentStreak"@),
        longest_streak: spec_field_i64(v, "longestStreak"@),
        last_practice_date: spec_field_opt_str(v, "lastPracticeDate"@),
    }
}

/// Tolerant parsing, defaulting half: a stats blob missing a field — or
/// carrying it with a non-integer type — still yields a row, with that
/// field read as zero. Shown for the average rate; every numeric field of
/// `stats_entry_from_json` reads through the same defaulting accessor.
pub proof fn lemma_tolerant_stats_defaulting(uid: i64, v: JsonVal)
    requires
        !(obj_lookup(v, "averageWpm"@) matches Some(JsonVal::Int(_))),
    ensures
        stats_entry_from_json(uid, v).average_wpm == 0,
{
}

/// Tolerant parsing, skipping half: a stats blob that is not valid JSON
/// contributes no stats row and no problem-key row, and aborts nothing —
/// the entry is a no-op on both tables, while the folds of every other
/// category never read the stats entries at all.
pub proof fn lemma_malformed_stats_blob_skipped(t: StatsTables, e: (String, Option<String>))
    requires
        e.1 matches Some(json) && spec_json_parse(json@) is None,
    ensures
        stats_step(t, e) == t,
{
}

/// A problem-key pair is a two-element array of a string and an integer;
/// anything else is skipped.
pub open spec fn pkey_pair_of(x: JsonVal) -> Option<(String, i64)> {
    match x {
        JsonVal::Arr(items) => if items@.len() == 2 {
            match items@[0] {
                JsonVal::Text(k) => match items@[1] {
                    JsonVal::Int(c) => Some((k, c)),
                    _ => None,
                },
                _ => None,
            }
        } else {
            None
        },
        _ => None,
    }
}

pub open spec fn pkey_step(tbl: Seq<ProblemKeyEntry>, uid: i64, x: JsonVal) -> Seq<
    ProblemKeyEntry,
> {
    match pkey_pair_of(x) {
        Some(p) => if has_pkey(tbl, uid, p.0@) {
            tbl
        } else {
            tbl.push(ProblemKeyEntry { user_id: uid, key_char: p.0, error_count: p.1 })
        },
        None => tbl,
    }
}

pub open spec fn import_user_pkeys(tbl: Seq<ProblemKeyEntry>, uid: i64, items: Seq<JsonVal>) -> Seq<ProblemKeyEntry>
    decreases items.len(),
{
    if items.len() == 0 {
        tbl
    } else {
        import_user_pkeys(pkey_step(tbl, uid, items[0]), uid, items.drop_first())
    }
}

/// The stats and problem-key tables evolve together during the import.
pub struct StatsTables {
    pub stats: Seq<UserStatsEntry>,
    pub pkeys: Seq<ProblemKeyEntry>,
}

pub open spec fn stats_step(t: StatsTables, e: (String, Option<String>)) -> StatsTables {
    match spec_parse_i64(e.0@) {
        Some(uid) => match e.1 {
            Some(json) => match spec_json_parse(json@) {
                Some(v) => StatsTables {
                    stats: if has_stats(t.stats, uid) {
                        t.stats
                    } else {
                        t.stats.push(stats_entry_from_json(uid, v))
                    },
                    pkeys: match obj_lookup(v, "problemKeys"@) {
                        Some(JsonVal::Arr(items)) => import_user_pkeys(t.pkeys, uid, items@),
                        _ => t.pkeys,
                    },
                },
                None => t,
            },
            None => t,
        },
        None => t,
    }
}

pub open spec fn import_stats(t: StatsTables, entries: Seq<(String, Option<String>)>) -> StatsTables
    decreases entries.len(),
{
    if entries.len() == 0 {
        t
    } else {
        import_stats(stats_step(t, entries[0]), entries.drop_first())
    }
}

// ── Spec: models for rows whose imported text fields are view-level ─────

/// The shape of one imported lesson row, with strings as character
/// sequences: the serialized task-results text is known only by its view.
pub struct LessonRowModel {
    pub user_id: i64,
    pub lesson_id: Seq<char>,
    pub completed_tasks: i64,
    pub total_tasks: i64,
    pub best_wpm: i64,
    pub average_accuracy: i64,
    pub last_task_index: Option<i64>,
    pub task_results_json: Seq<char>,
}

pub open spec fn lesson_entry_model(e: LessonEntry) -> LessonRowModel {
    LessonRowModel {
        user_id: e.user_id,
        lesson_id: e.row.lesson_id@,
        completed_tasks: e.row.completed_tasks,
        total_tasks: e.row.total_tasks,
        best_wpm: e.row.best_wpm,
        average_accuracy: e.row.average_accuracy,
        last_task_index: e.row.last_task_index,
        task_results_json: e.row.task_results_json@,
    }
}

pub open spec fn lesson_models(s: Seq<LessonEntry>) -> Seq<LessonRowModel> {
    s.map_values(|e: LessonEntry| lesson_entry_model(e))
}

pub open spec fn has_lesson_model(s: Seq<LessonRowModel>, uid: i64, lesson: Seq<char>) -> bool {
    exists|i: int| 0 <= i < s.len() && s[i].user_id == uid && s[i].lesson_id == lesson
}

pub open spec fn lesson_model_from_json(uid: i64, lesson_id: Seq<char>, v: JsonVal) -> LessonRowModel {
    LessonRowModel {
        user_id: uid,
        lesson_id: lesson_id,
        completed_tasks: spec_field_i64(v, "completedTasks"@),
        total_tasks: spec_field_i64(v, "totalTasks"@),
        best_wpm: spec_field_i64(v, "bestWpm"@),
        average_accuracy: spec_field_i64(v, "averageAccuracy"@),
        last_task_index: spec_field_opt_i64(v, "lastTaskIndex"@),
        task_results_json: match obj_lookup(v, "taskResults"@) {
            Some(x) => spec_json_text(x),
            None => "[]"@,
        },
    }
}

pub open spec fn lesson_pair_step(tbl: Seq<LessonRowModel>, uid: i64, p: (String, JsonVal)) -> Seq<
    LessonRowModel,
> {
    if has_lesson_model(tbl, uid, p.0@) {
        tbl
    } else {
        tbl.push(lesson_model_from_json(uid, p.0@, p.1))
    }
}

pub open spec fn import_user_lessons(
    tbl: Seq<LessonRowModel>,
    uid: i64,
    pairs: Seq<(String, JsonVal)>,
) -> Seq<LessonRowModel>
    decreases pairs.len(),
{
    if pairs.len() == 0 {
        tbl
    } else {
        import_user_lessons(lesson_pair_step(tbl, uid, pairs[0]), uid, pairs.drop_first())
    }
}

pub open spec fn lessons_step(tbl: Seq<LessonRowModel>, e: (String, Option<String>)) -> Seq<
    LessonRowModel,
> {
    match spec_parse_i64(e.0@) {
        Some(uid) => match e.1 {
            Some(json) => match spec_json_parse(json@) {
                Some(JsonVal::Obj(pairs)) => import_user_lessons(tbl, uid, pairs@),
                _ => tbl,
            },
            None => tbl,
        },
        None => tbl,
    }
}

pub open spec fn import_lessons(tbl: Seq<LessonRowModel>, entries: Seq<(String, Option<String>)>) -> Seq<LessonRowModel>
    decreases entries.len(),
{
    if entries.len() == 0 {
        tbl
    } else {
        import_lessons(lessons_step(tbl, entries[0]), entries.drop_first())
    }
}

/// The shape of one imported course row, strings as character sequences.
pub struct CourseRowModel {
    pub user_id: i64,
    pub course_id: Seq<char>,
    pub current_stage_id: Option<Seq<char>>,
    pub completed_stages_json: Seq<char>,
    pub skipped_stages_json: Seq<char>,
    pub enrolled_at: Seq<char>,
    pub completed_at: Option<Seq<char>>,
}

pub open spec fn opt_str_view(o: Option<String>) -> Option<Seq<char>> {
    match o {
        Some(s) => Some(s@),
        None => None,
    }
}

pub open spec fn course_entry_model(e: CourseEntry) -> CourseRowModel {
    CourseRowModel {
        user_id: e.user_id,
        course_id: e.row.course_id@,
        current_stage_id: opt_str_view(e.row.current_stage_id),
        completed_stages_json: e.row.completed_stages_json@,
        skipped_stages_json: e.row.skipped_stages_json@,
        enrolled_at: e.row.enrolled_at@,
        completed_at: opt_str_view(e.row.completed_at),
    }
}

pub open spec fn course_models(s: Seq<CourseEntry>) -> Seq<CourseRowModel> {
    s.map_values(|e: CourseEntry| course_entry_model(e))
}

pub open spec fn has_course_model(s: Seq<CourseRowModel>, uid: i64, course: Seq<char>) -> bool {
    exists|i: int| 0 <= i < s.len() && s[i].user_id == uid && s[i].course_id == course
}

pub open spec fn str_field_or_empty(v: JsonVal, key: Seq<char>) -> Seq<char> {
    match spec_field_opt_str(v, key) {
        Some(s) => s@,
        None => Seq::<char>::empty(),
    }
}

pub open spec fn json_field_or_empty_list(v: JsonVal, key: Seq<char>) -> Seq<char> {
    match obj_lookup(v, key) {
        Some(x) => spec_json_text(x),
        None => "[]"@,
    }
}

pub open spec fn course_model_from_json(uid: i64, course_id: Seq<char>, v: JsonVal) -> CourseRowModel {
    CourseRowModel {
        user_id: uid,
        course_id: course_id,
        current_stage_id: opt_str_view(spec_field_opt_str(v, "currentStageId"@)),
        completed_stages_json: json_field_or_empty_list(v, "completedStages"@),
        skipped_stages_json: json_field_or_empty_list(v, "skippedStages"@),
        enrolled_at: str_field_or_empty(v, "enrolledAt"@),
        completed_at: opt_str_view(spec_field_opt_str(v, "completedAt"@)),
    }
}

pub open spec fn course_pair_step(tbl: Seq<CourseRowModel>, uid: i64, p: (String, JsonVal)) -> Seq<
    CourseRowModel,
> {
    if has_course_model(tbl, uid, p.0@) {
        tbl
    } else {
        tbl.push(course_model_from_json(uid, p.0@, p.1))
    }
}

pub open spec fn import_user_courses(
    tbl: Seq<CourseRowModel>,
    uid: i64,
    pairs: Seq<(String, JsonVal)>,
) -> Seq<CourseRowModel>
    decreases pairs.len(),
{
    if pairs.len() == 0 {
        tbl
    } else {
        import_user_courses(course_pair_step(tbl, uid, pairs[0]), uid, pairs.drop_first())
    }
}

pub open spec fn courses_step(tbl: Seq<CourseRowModel>, e: (String, Option<String>)) -> Seq<
    CourseRowModel,
> {
    match spec_parse_i64(e.0@) {
        Some(uid) => match e.1 {
            Some(json) => match spec_json_parse(json@) {
                Some(JsonVal::Obj(pairs)) => import_user_courses(tbl, uid, pairs@),
                _ => tbl,
            },
            None => tbl,
        },
        None => tbl,
    }
}

pub open spec fn import_courses(tbl: Seq<CourseRowModel>, entries: Seq<(String, Option<String>)>) -> Seq<CourseRowModel>
    decreases entries.len(),
{
    if entries.len() == 0 {
        tbl
    } else {
        import_courses(courses_step(tbl, entries[0]), entries.drop_first())
    }
}

/// The shape of one imported snippet row, strings as character sequences.
pub struct SnippetRowModel {
    pub id: Seq<char>,
    pub user_id: i64,
    pub name: Seq<char>,
    pub content: Seq<char>,
    pub language: Option<Seq<char>>,
    pub mode: Seq<char>,
    pub created_at: Seq<char>,
    pub practice_count: i64,
    pub best_wpm: Option<i64>,
    pub best_accuracy: Option<i64>,
}

pub open spec fn snippet_row_model(e: crate::models::CustomSnippetRow) -> SnippetRowModel {
    SnippetRowModel {
        id: e.id@,
        user_id: e.user_id,
        name: e.name@,
        content: e.content@,
        language: opt_str_view(e.language),
        mode: e.mode@,
        created_at: e.created_at@,
        practice_count: e.practice_count,
        best_wpm: e.best_wpm,
        best_accuracy: e.best_accuracy,
    }
}

pub open spec fn snippet_models(s: Seq<crate::models::CustomSnippetRow>) -> Seq<SnippetRowModel> {
    s.map_values(|e: crate::models::CustomSnippetRow| snippet_row_model(e))
}

pub open spec fn has_snippet_model(s: Seq<SnippetRowModel>, id: Seq<char>) -> bool {
    exists|i: int| 0 <= i < s.len() && s[i].id == id
}

pub open spec fn snippet_model_from_json(uid: i64, x: JsonVal) -> SnippetRowModel {
    SnippetRowModel {
        id: str_field_or_empty(x, "id"@),
        user_id: uid,
        name: str_field_or_empty(x, "name"@),
        content: str_field_or_empty(x, "content"@),
        language: opt_str_view(spec_field_opt_str(x, "language"@)),
        mode: match spec_field_opt_str(x, "mode"@) {
            Some(s) => s@,
            None => "text"@,
        },
        created_at: str_field_or_empty(x, "createdAt"@),
        practice_count: spec_field_i64(x, "practiceCount"@),
        best_wpm: spec_field_opt_i64(x, "bestWpm"@),
        best_accuracy: spec_field_opt_i64(x, "bestAccuracy"@),
    }
}

pub open spec fn snippet_item_step(tbl: Seq<SnippetRowModel>, uid: i64, x: JsonVal) -> Seq<
    SnippetRowModel,
> {
    let m = snippet_model_from_json(uid, x);
    if has_snippet_model(tbl, m.id) {
        tbl
    } else {
        tbl.push(m)
    }
}

pub open spec fn import_user_snippets(tbl: Seq<SnippetRowModel>, uid: i64, items: Seq<JsonVal>) -> Seq<SnippetRowModel>
    decreases items.len(),
{
    if items.len() == 0 {
        tbl
    } else {
        import_user_snippets(snippet_item_step(tbl, uid, items[0]), uid, items.drop_first())
    }
}

pub open spec fn snippets_step(tbl: Seq<SnippetRowModel>, e: (String, Option<String>)) -> Seq<
    SnippetRowModel,
> {
    match spec_parse_i64(e.0@) {
        Some(uid) => match e.1 {
            Some(json) => match spec_json_parse(json@) {
                Some(JsonVal::Arr(items)) => import_user_snippets(tbl, uid, items@),
                _ => tbl,
            },
            None => tbl,
        },
        None => tbl,
    }
}

pub open spec fn import_snippets(tbl: Seq<SnippetRowModel>, entries: Seq<(String, Option<String>)>) -> Seq<SnippetRowModel>
    decreases entries.len(),
{
    if entries.len() == 0 {
        tbl
    } else {
        import_snippets(snippets_step(tbl, entries[0]), entries.drop_first())
    }
}

/// Daily activity rows are value-level: the date is the sub-key itself.
pub open spec fn activity_row_from_json(date: String, v: JsonVal) -> DailyActivityRow {
    DailyActivityRow {
        date: date,
        practice_time: spec_field_i64(v, "practiceTime"@),
        characters: spec_field_i64(v, "characters"@),
        sessions: spec_field_i64(v, "sessions"@),
    }
}

pub open spec fn activity_pair_step(tbl: Seq<ActivityEntry>, uid: i64, p: (String, JsonVal)) -> Seq<
    ActivityEntry,
> {
    if has_activity(tbl, uid, p.0@) {
        tbl
    } else {
        tbl.push(ActivityEntry { user_id: uid, row: activity_row_from_json(p.0, p.1) })
    }
}

pub open spec fn import_user_activity(
    tbl: Seq<ActivityEntry>,
    uid: i64,
    pairs: Seq<(String, JsonVal)>,
) -> Seq<ActivityEntry>
    decreases pairs.len(),
{
    if pairs.len() == 0 {
        tbl
    } else {
        import_user_activity(activity_pair_step(tbl, uid, pairs[0]), uid, pairs.drop_first())
    }
}

pub open spec fn activity_step(tbl: Seq<ActivityEntry>, e: (String, Option<String>)) -> Seq<
    ActivityEntry,
> {
    match spec_parse_i64(e.0@) {
        Some(uid) => match e.1 {
            Some(json) => match spec_json_parse(json@) {
                Some(JsonVal::Obj(pairs)) => import_user_activity(tbl, uid, pairs@),
                _ => tbl,
            },
            None => tbl,
        },
        None => tbl,
    }
}

pub open spec fn import_activity(tbl: Seq<ActivityEntry>, entries: Seq<(String, Option<String>)>) -> Seq<ActivityEntry>
    decreases entries.len(),
{
    if entries.len() == 0 {
        tbl
    } else {
        import_activity(activity_step(tbl, entries[0]), entries.drop_first())
    }
}

pub open spec fn daily_step(tbl: Seq<DailyTestResultRow>, r: DailyTestResultRow) -> Seq<
    DailyTestResultRow,
> {
    if has_daily(tbl, r.user_id, r.date@) {
        tbl
    } else {
        tbl.push(r)
    }
}

pub open spec fn import_daily(tbl: Seq<DailyTestResultRow>, rows: Seq<DailyTestResultRow>) -> Seq<
    DailyTestResultRow,
>
    decreases rows.len(),
{
    if rows.len() == 0 {
        tbl
    } else {
        import_daily(daily_step(tbl, rows[0]), rows.drop_first())
    }
}

// ── Spec: which entries insert rows, and the foreign-key gate ───────────

/// A settings entry inserts rows exactly when its key parses and its blob
/// is present.
pub open spec fn settings_entry_uid(e: (String, Option<String>)) -> Option<i64> {
    match spec_parse_i64(e.0@) {
        Some(uid) => match e.1 {
            Some(json) => Some(uid),
            None => None,
        },
        None => None,
    }
}

/// A stats entry inserts rows exactly when its blob also parses as JSON.
pub open spec fn stats_entry_uid(e: (String, Option<String>)) -> Option<i64> {
    match spec_parse_i64(e.0@) {
        Some(uid) => match e.1 {
            Some(json) => match spec_json_parse(json@) {
                Some(v) => Some(uid),
                None => None,
            },
            None => None,
        },
        None => None,
    }
}

/// A keyed-mapping entry inserts rows exactly when its blob parses as a
/// non-empty JSON object.
pub open spec fn mapping_entry_uid(e: (String, Option<String>)) -> Option<i64> {
    match spec_parse_i64(e.0@) {
        Some(uid) => match e.1 {
            Some(json) => match spec_json_parse(json@) {
                Some(JsonVal::Obj(pairs)) => if pairs@.len() > 0 {
                    Some(uid)
                } else {
                    None
                },
                _ => None,
            },
            None => None,
        },
        None => None,
    }
}

/// A snippets entry inserts rows exactly when its blob parses as a
/// non-empty JSON array.
pub open spec fn snippets_entry_uid(e: (String, Option<String>)) -> Option<i64> {
    match spec_parse_i64(e.0@) {
        Some(uid) => match e.1 {
            Some(json) => match spec_json_parse(json@) {
                Some(JsonVal::Arr(items)) => if items@.len() > 0 {
                    Some(uid)
                } else {
                    None
                },
                _ => None,
            },
            None => None,
        },
        None => None,
    }
}

pub open spec fn entries_fk_ok(
    users: Seq<UserProfile>,
    entries: Seq<(String, Option<String>)>,
    uid_of: spec_fn((String, Option<String>)) -> Option<i64>,
) -> bool {
    forall|i: int|
        0 <= i < entries.len() ==> match uid_of(#[trigger] entries[i]) {
            Some(uid) => has_user_id(users, uid),
            None => true,
        }
}

pub open spec fn daily_rows_fk_ok(users: Seq<UserProfile>, rows: Seq<DailyTestResultRow>) -> bool {
    forall|i: int| 0 <= i < rows.len() ==> has_user_id(users, #[trigger] rows[i].user_id)
}

/// The import succeeds exactly when every row it would insert names a user
/// that exists after the payload's own users are inserted.
pub open spec fn import_ok(db: Database, p: MigrationPayload) -> bool {
    let ua = import_users(db.users@, p.users@);
    &&& entries_fk_ok(ua, p.settings@, |e: (String, Option<String>)| settings_entry_uid(e))
    &&& entries_fk_ok(ua, p.stats@, |e: (String, Option<String>)| stats_entry_uid(e))
    &&& entries_fk_ok(ua, p.progress@, |e: (String, Option<String>)| mapping_entry_uid(e))
    &&& entries_fk_ok(ua, p.courses@, |e: (String, Option<String>)| mapping_entry_uid(e))
    &&& entries_fk_ok(ua, p.snippets@, |e: (String, Option<String>)| snippets_entry_uid(e))
    &&& entries_fk_ok(ua, p.activity@, |e: (String, Option<String>)| mapping_entry_uid(e))
    &&& daily_rows_fk_ok(ua, p.daily_results@)
}

// ── Exec: membership scans ──────────────────────────────────────────────

fn vec_has_user(users: &Vec<UserProfile>, id: i64) -> (r: bool)
    ensures
        r == has_user_id(users@, id),
{
    let mut i: usize = 0;
    while i < users.len()
        invariant
            i <= users@.len(),
            forall|j: int| 0 <= j < i ==> users@[j].id != id,
        decreases users@.len() - i,
    {
        if users[i].id == id {
            return true;
        }
        i = i + 1;
    }
    false
}

/// Whether a user id exists once the payload's users are inserted.
fn has_user_after(db_users: &Vec<UserProfile>, adds: &Vec<UserProfile>, id: i64) -> (r: bool)
    ensures
        r == has_user_id(import_users(db_users@, adds@), id),
{
    proof {
        lemma_import_users_has(db_users@, adds@, id);
    }
    if vec_has_user(db_users, id) {
        return true;
    }
    let mut i: usize = 0;
    while i < adds.len()
        invariant
            i <= adds@.len(),
            forall|j: int| 0 <= j < i ==> adds@[j].id != id,
        decreases adds@.len() - i,
    {
        if adds[i].id == id {
            proof {
                lemma_import_users_has(db_users@, adds@, id);
            }
            return true;
        }
        i = i + 1;
    }
    false
}

fn has_settings_vec(tbl: &Vec<SettingsEntry>, uid: i64) -> (r: bool)
    ensures
        r == has_settings(tbl@, uid),
{
    let mut i: usize = 0;
    while i < tbl.len()
        invariant
            i <= tbl@.len(),
            forall|j: int| 0 <= j < i ==> tbl@[j].user_id != uid,
        decreases tbl@.len() - i,
    {
        if tbl[i].user_id == uid {
            return true;
        }
        i = i + 1;
    }
    false
}

fn has_stats_vec(tbl: &Vec<UserStatsEntry>, uid: i64) -> (r: bool)
    ensures
        r == has_stats(tbl@, uid),
{
    let mut i: usize = 0;
    while i < tbl.len()
        invariant
            i <= tbl@.len(),
            forall|j: int| 0 <= j < i ==> tbl@[j].user_id != uid,
        decreases tbl@.len() - i,
    {
        if tbl[i].user_id == uid {
            return true;
        }
        i = i + 1;
    }
    false
}

fn has_pkey_vec(tbl: &Vec<ProblemKeyEntry>, uid: i64, key: &String) -> (r: bool)
    ensures
        r == has_pkey(tbl@, uid, key@),
{
    let mut i: usize = 0;
    while i < tbl.len()
        invariant
            i <= tbl@.len(),
            forall|j: int| 0 <= j < i ==> !(tbl@[j].user_id == uid && tbl@[j].key_char@ == key@),
        decreases tbl@.len() - i,
    {
        if tbl[i].user_id == uid && tbl[i].key_char == *key {
            return true;
        }
        i = i + 1;
    }
    false
}

fn has_lesson_vec(tbl: &Vec<LessonEntry>, uid: i64, lesson: &String) -> (r: bool)
    ensures
        r == has_lesson_model(lesson_models(tbl@), uid, lesson@),
{
    let mut i: usize = 0;
    while i < tbl.len()
        invariant
            i <= tbl@.len(),
            forall|j: int|
                0 <= j < i ==> !(tbl@[j].user_id == uid && tbl@[j].row.lesson_id@ == lesson@),
        decreases tbl@.len() - i,
    {
        if tbl[i].user_id == uid && tbl[i].row.lesson_id == *lesson {
            proof {
                assert(lesson_models(tbl@)[i as int].user_id == uid);
                assert(lesson_models(tbl@)[i as int].lesson_id == lesson@);
            }
            return true;
        }
        i = i + 1;
    }
    proof {
        assert forall|j: int| 0 <= j < lesson_models(tbl@).len() implies !(lesson_models(
            tbl@,
        )[j].user_id == uid && lesson_models(tbl@)[j].lesson_id == lesson@) by {
            assert(lesson_models(tbl@)[j] == lesson_entry_model(tbl@[j]));
        }
    }
    false
}

fn has_course_vec(tbl: &Vec<CourseEntry>, uid: i64, course: &String) -> (r: bool)
    ensures
        r == has_course_model(course_models(tbl@), uid, course@),
{
    let mut i: usize = 0;
    while i < tbl.len()
        invariant
            i <= tbl@.len(),
            forall|j: int|
                0 <= j < i ==> !(tbl@[j].user_id == uid && tbl@[j].row.course_id@ == course@),
        decreases tbl@.len() - i,
    {
        if tbl[i].user_id == uid && tbl[i].row.course_id == *course {
            proof {
                assert(course_models(tbl@)[i as int].user_id == uid);
                assert(course_models(tbl@)[i as int].course_id == course@);
            }
            return true;
        }
        i = i + 1;
    }
    proof {
        assert forall|j: int| 0 <= j < course_models(tbl@).len() implies !(course_models(
            tbl@,
        )[j].user_id == uid && course_models(tbl@)[j].course_id == course@) by {
            assert(course_models(tbl@)[j] == course_entry_model(tbl@[j]));
        }
    }
    false
}

fn has_snippet_id_vec(tbl: &Vec<crate::models::CustomSnippetRow>, id: &String) -> (r: bool)
    ensures
        r == has_snippet_model(snippet_models(tbl@), id@),
{
    let mut i: usize = 0;
    while i < tbl.len()
        invariant
            i <= tbl@.len(),
            forall|j: int| 0 <= j < i ==> tbl@[j].id@ != id@,
        decreases tbl@.len() - i,
    {
        if tbl[i].id == *id {
            proof {
                assert(snippet_models(tbl@)[i as int].id == id@);
            }
            return true;
        }
        i = i + 1;
    }
    proof {
        assert forall|j: int| 0 <= j < snippet_models(tbl@).len() implies snippet_models(
            tbl@,
        )[j].id != id@ by {
            assert(snippet_models(tbl@)[j] == snippet_row_model(tbl@[j]));
        }
    }
    false
}

fn has_daily_vec(tbl: &Vec<DailyTestResultRow>, uid: i64, date: &String) -> (r: bool)
    ensures
        r == has_daily(tbl@, uid, date@),
{
    let mut i: usize = 0;
    while i < tbl.len()
        invariant
            i <= tbl@.len(),
            forall|j: int| 0 <= j < i ==> !(tbl@[j].user_id == uid && tbl@[j].date@ == date@),
        decreases tbl@.len() - i,
    {
        if tbl[i].user_id == uid && tbl[i].date == *date {
            return true;
        }
        i = i + 1;
    }
    false
}

fn has_activity_vec(tbl: &Vec<ActivityEntry>, uid: i64, date: &String) -> (r: bool)
    ensures
        r == has_activity(tbl@, uid, date@),
{
    let mut i: usize = 0;
    while i < tbl.len()
        invariant
            i <= tbl@.len(),
            forall|j: int| 0 <= j < i ==> !(tbl@[j].user_id == uid && tbl@[j].row.date@ == date@),
        decreases tbl@.len() - i,
    {
        if tbl[i].user_id == uid && tbl[i].row.date == *date {
            return true;
        }
        i = i + 1;
    }
    false
}

// ── Exec: validation, before anything is written ────────────────────────

fn check_settings_entries(
    db_users: &Vec<UserProfile>,
    adds: &Vec<UserProfile>,
    entries: &Vec<(String, Option<String>)>,
) -> (r: bool)
    ensures
        r == entries_fk_ok(
            import_users(db_users@, adds@),
            entries@,
            |e: (String, Option<String>)| settings_entry_uid(e),
        ),
{
    let mut i: usize = 0;
    while i < entries.len()
        invariant
            i <= entries@.len(),
            forall|j: int|
                0 <= j < i ==> match settings_entry_uid(#[trigger] entries@[j]) {
                    Some(uid) => has_user_id(import_users(db_users@, adds@), uid),
                    None => true,
                },
        decreases entries@.len() - i,
    {
        match crate::json::parse_i64(entries[i].0.as_str()) {
            Some(uid) => match &entries[i].1 {
                Some(_json) => {
                    if !has_user_after(db_users, adds, uid) {
                        return false;
                    }
                },
                None => {},
            },
            None => {},
        }
        i = i + 1;
    }
    true
}

fn check_stats_entries(
    db_users: &Vec<UserProfile>,
    adds: &Vec<UserProfile>,
    entries: &Vec<(String, Option<String>)>,
) -> (r: bool)
    ensures
        r == entries_fk_ok(
            import_users(db_users@, adds@),
            entries@,
            |e: (String, Option<String>)| stats_entry_uid(e),
        ),
{
    let mut i: usize = 0;
    while i < entries.len()
        invariant
            i <= entries@.len(),
            forall|j: int|
                0 <= j < i ==> match stats_entry_uid(#[trigger] entries@[j]) {
                    Some(uid) => has_user_id(import_users(db_users@, adds@), uid),
                    None => true,
                },
        decreases entries@.len() - i,
    {
        match crate::json::parse_i64(entries[i].0.as_str()) {
            Some(uid) => match &entries[i].1 {
                Some(json) => {
                    let parsed = crate::json::parse_json(json.as_str());
                    if parsed.is_some() {
                        if !has_user_after(db_users, adds, uid) {
                            return false;
                        }
                    }
                },
                None => {},
            },
            None => {},
        }
        i = i + 1;
    }
    true
}

fn check_mapping_entries(
    db_users: &Vec<UserProfile>,
    adds: &Vec<UserProfile>,
    entries: &Vec<(String, Option<String>)>,
) -> (r: bool)
    ensures
        r == entries_fk_ok(
            import_users(db_users@, adds@),
            entries@,
            |e: (String, Option<String>)| mapping_entry_uid(e),
        ),
{
    let mut i: usize = 0;
    while i < entries.len()
        invariant
            i <= entries@.len(),
            forall|j: int|
                0 <= j < i ==> match mapping_entry_uid(#[trigger] entries@[j]) {
                    Some(uid) => has_user_id(import_users(db_users@, adds@), uid),
                    None => true,
                },
        decreases entries@.len() - i,
    {
        match crate::json::parse_i64(entries[i].0.as_str()) {
            Some(uid) => match &entries[i].1 {
                Some(json) => match crate::json::parse_json(json.as_str()) {
                    Some(v) => match v {
                        JsonVal::Obj(pairs) => {
                            if pairs.len() > 0 {
                                if !has_user_after(db_users, adds, uid) {
                                    return false;
                                }
                            }
                        },
                        _ => {},
                    },
                    None => {},
                },
                None => {},
            },
            None => {},
        }
        i = i + 1;
    }
    true
}

fn check_snippets_entries(
    db_users: &Vec<UserProfile>,
    adds: &Vec<UserProfile>,
    entries: &Vec<(String, Option<String>)>,
) -> (r: bool)
    ensures
        r == entries_fk_ok(
            import_users(db_users@, adds@),
            entries@,
            |e: (String, Option<String>)| snippets_entry_uid(e),
        ),
{
    let mut i: usize = 0;
    while i < entries.len()
        invariant
            i <= entries@.len(),
            forall|j: int|
                0 <= j < i ==> match snippets_entry_uid(#[trigger] entries@[j]) {
                    Some(uid) => has_user_id(import_users(db_users@, adds@), uid),
                    None => true,
                },
        decreases entries@.len() - i,
    {
        match crate::json::parse_i64(entries[i].0.as_str()) {
            Some(uid) => match &entries[i].1 {
                Some(json) => match crate::json::parse_json(json.as_str()) {
                    Some(v) => match v {
                        JsonVal::Arr(items) => {
                            if items.len() > 0 {
                                if !has_user_after(db_users, adds, uid) {
                                    return false;
                                }
                            }
                        },
                        _ => {},
                    },
                    None => {},
                },
                None => {},
            },
            None => {},
        }
        i = i + 1;
    }
    true
}

fn check_daily_rows(
    db_users: &Vec<UserProfile>,
    adds: &Vec<UserProfile>,
    rows: &Vec<DailyTestResultRow>,
) -> (r: bool)
    ensures
        r == daily_rows_fk_ok(import_users(db_users@, adds@), rows@),
{
    let mut i: usize = 0;
    while i < rows.len()
        invariant
            i <= rows@.len(),
            forall|j: int|
                0 <= j < i ==> has_user_id(import_users(db_users@, adds@), #[trigger] rows@[j].user_id),
        decreases rows@.len() - i,
    {
        if !has_user_after(db_users, adds, rows[i].user_id) {
            return false;
        }
        i = i + 1;
    }
    true
}

/// Whether the whole payload can be imported without a constraint failure.
fn check_import(db: &Database, payload: &MigrationPayload) -> (r: bool)
    ensures
        r == import_ok(*db, *payload),
{
    if !check_settings_entries(&db.users, &payload.users, &payload.settings) {
        return false;
    }
    if !check_stats_entries(&db.users, &payload.users, &payload.stats) {
        return false;
    }
    if !check_mapping_entries(&db.users, &payload.users, &payload.progress) {
        return false;
    }
    if !check_mapping_entries(&db.users, &payload.users, &payload.courses) {
        return false;
    }
    if !check_snippets_entries(&db.users, &payload.users, &payload.snippets) {
        return false;
    }
    if !check_mapping_entries(&db.users, &payload.users, &payload.activity) {
        return false;
    }
    if !check_daily_rows(&db.users, &payload.users, &payload.daily_results) {
        return false;
    }
    true
}

// ── Exec: the apply phase, insert-if-absent throughout ──────────────────

/// Insert every payload user that is not already present, in payload order.
fn apply_users(users: &mut Vec<UserProfile>, adds: &Vec<UserProfile>)
    requires
        crate::storage::users_unique(old(users)@),
    ensures
        final(users)@ == import_users(old(users)@, adds@),
        crate::storage::users_unique(final(users)@),
        forall|uid: i64| has_user_id(old(users)@, uid) ==> has_user_id(final(users)@, uid),
{
    proof {
        assert(adds@.skip(0) =~= adds@);
    }
    let mut i: usize = 0;
    while i < adds.len()
        invariant
            i <= adds@.len(),
            crate::storage::users_unique(users@),
            import_users(users@, adds@.skip(i as int)) == import_users(old(users)@, adds@),
            forall|uid: i64| has_user_id(old(users)@, uid) ==> has_user_id(users@, uid),
        decreases adds@.len() - i,
    {
        let ghost pre = users@;
        if !vec_has_user(users, adds[i].id) {
            users.push(adds[i].clone());
            proof {
                assert forall|p: int, q: int| 0 <= p < q < users@.len() implies users@[p].id
                    != users@[q].id by {
                    if q < pre.len() as int {
                        assert(pre[p].id != pre[q].id);
                    }
                }
                assert forall|uid: i64| has_user_id(pre, uid) implies has_user_id(users@, uid) by {
                    let w = choose|w: int| 0 <= w < pre.len() && pre[w].id == uid;
                    assert(users@[w].id == uid);
                }
            }
        }
        proof {
            assert(users@ == add_user_if_absent(pre, adds@[i as int]));
            assert(adds@.skip(i as int)[0] == adds@[i as int]);
            assert(adds@.skip(i as int).drop_first() =~= adds@.skip(i + 1));
            assert(import_users(pre, adds@.skip(i as int)) == import_users(
                users@,
                adds@.skip(i + 1),
            ));
        }
        i = i + 1;
    }
    proof {
        assert(adds@.skip(adds@.len() as int).len() == 0);
    }
}

/// Insert a settings row for every entry whose key parses and whose blob is
/// present, unless that user already has settings.
fn apply_settings(
    tbl: &mut Vec<SettingsEntry>,
    users: &Vec<UserProfile>,
    entries: &Vec<(String, Option<String>)>,
)
    requires
        crate::storage::settings_unique(old(tbl)@),
        crate::storage::settings_fk(old(tbl)@, users@),
        entries_fk_ok(users@, entries@, |e: (String, Option<String>)| settings_entry_uid(e)),
    ensures
        final(tbl)@ == import_settings(old(tbl)@, entries@),
        crate::storage::settings_unique(final(tbl)@),
        crate::storage::settings_fk(final(tbl)@, users@),
{
    proof {
        assert(entries@.skip(0) =~= entries@);
    }
    let mut i: usize = 0;
    while i < entries.len()
        invariant
            i <= entries@.len(),
            crate::storage::settings_unique(tbl@),
            crate::storage::settings_fk(tbl@, users@),
            entries_fk_ok(users@, entries@, |e: (String, Option<String>)| settings_entry_uid(e)),
            import_settings(tbl@, entries@.skip(i as int)) == import_settings(
                old(tbl)@,
                entries@,
            ),
        decreases entries@.len() - i,
    {
        let ghost pre = tbl@;
        match crate::json::parse_i64(entries[i].0.as_str()) {
            Some(uid) => match &entries[i].1 {
                Some(json) => {
                    if !has_settings_vec(tbl, uid) {
                        tbl.push(SettingsEntry { user_id: uid, settings_json: json.clone() });
                        proof {
                            assert(settings_entry_uid(entries@[i as int]) == Some(uid));
                            assert(has_user_id(users@, uid));
                            assert forall|p: int, q: int| 0 <= p < q < tbl@.len() implies
                                tbl@[p].user_id != tbl@[q].user_id by {
                                if q < pre.len() as int {
                                    assert(pre[p].user_id != pre[q].user_id);
                                }
                            }
                        }
                    }
                },
                None => {},
            },
            None => {},
        }
        proof {
            assert(tbl@ == settings_step(pre, entries@[i as int]));
            assert(entries@.skip(i as int)[0] == entries@[i as int]);
            assert(entries@.skip(i as int).drop_first() =~= entries@.skip(i + 1));
            assert(import_settings(pre, entries@.skip(i as int)) == import_settings(
                tbl@,
                entries@.skip(i + 1),
            ));
        }
        i = i + 1;
    }
    proof {
        assert(entries@.skip(entries@.len() as int).len() == 0);
    }
}

/// Insert every daily test result that is not already present by its
/// (user, date) key.
fn apply_daily(
    tbl: &mut Vec<DailyTestResultRow>,
    users: &Vec<UserProfile>,
    rows: &Vec<DailyTestResultRow>,
)
    requires
        crate::storage::daily_unique(old(tbl)@),
        crate::storage::daily_fk(old(tbl)@, users@),
        daily_rows_fk_ok(users@, rows@),
    ensures
        final(tbl)@ == import_daily(old(tbl)@, rows@),
        crate::storage::daily_unique(final(tbl)@),
        crate::storage::daily_fk(final(tbl)@, users@),
{
    proof {
        assert(rows@.skip(0) =~= rows@);
    }
    let mut i: usize = 0;
    while i < rows.len()
        invariant
            i <= rows@.len(),
            crate::storage::daily_unique(tbl@),
            crate::storage::daily_fk(tbl@, users@),
            daily_rows_fk_ok(users@, rows@),
            import_daily(tbl@, rows@.skip(i as int)) == import_daily(old(tbl)@, rows@),
        decreases rows@.len() - i,
    {
        let ghost pre = tbl@;
        if !has_daily_vec(tbl, rows[i].user_id, &rows[i].date) {
            tbl.push(rows[i].clone());
            proof {
                assert(has_user_id(users@, rows@[i as int].user_id));
                assert forall|p: int, q: int| 0 <= p < q < tbl@.len() implies !(tbl@[p].user_id
                    == tbl@[q].user_id && tbl@[p].date@ == tbl@[q].date@) by {
                    if q < pre.len() as int {
                        assert(!(pre[p].user_id == pre[q].user_id && pre[p].date@ == pre[q].date@));
                    }
                }
            }
        }
        proof {
            assert(tbl@ == daily_step(pre, rows@[i as int]));
            assert(rows@.skip(i as int)[0] == rows@[i as int]);
            assert(rows@.skip(i as int).drop_first() =~= rows@.skip(i + 1));
            assert(import_daily(pre, rows@.skip(i as int)) == import_daily(
                tbl@,
                rows@.skip(i + 1),
            ));
        }
        i = i + 1;
    }
    proof {
        assert(rows@.skip(rows@.len() as int).len() == 0);
    }
}

/// Insert a stats row (fields defaulted independently) and its problem-key
/// counters for every entry whose blob parses as JSON.
fn apply_stats(
    stats_tbl: &mut Vec<UserStatsEntry>,
    pkeys_tbl: &mut Vec<ProblemKeyEntry>,
    users: &Vec<UserProfile>,
    entries: &Vec<(String, Option<String>)>,
)
    requires
        crate::storage::stats_unique(old(stats_tbl)@),
        crate::storage::stats_fk(old(stats_tbl)@, users@),
        crate::storage::pkeys_unique(old(pkeys_tbl)@),
        crate::storage::pkeys_fk(old(pkeys_tbl)@, users@),
        entries_fk_ok(users@, entries@, |e: (String, Option<String>)| stats_entry_uid(e)),
    ensures
        (StatsTables { stats: final(stats_tbl)@, pkeys: final(pkeys_tbl)@ }) == import_stats(
            (StatsTables { stats: old(stats_tbl)@, pkeys: old(pkeys_tbl)@ }),
            entries@,
        ),
        crate::storage::stats_unique(final(stats_tbl)@),
        crate::storage::stats_fk(final(stats_tbl)@, users@),
        crate::storage::pkeys_unique(final(pkeys_tbl)@),
        crate::storage::pkeys_fk(final(pkeys_tbl)@, users@),
{
    proof {
        assert(entries@.skip(0) =~= entries@);
    }
    let ghost start = StatsTables { stats: old(stats_tbl)@, pkeys: old(pkeys_tbl)@ };
    let mut i: usize = 0;
    while i < entries.len()
        invariant
            i <= entries@.len(),
            start == (StatsTables { stats: old(stats_tbl)@, pkeys: old(pkeys_tbl)@ }),
            crate::storage::stats_unique(stats_tbl@),
            crate::storage::stats_fk(stats_tbl@, users@),
            crate::storage::pkeys_unique(pkeys_tbl@),
            crate::storage::pkeys_fk(pkeys_tbl@, users@),
            entries_fk_ok(users@, entries@, |e: (String, Option<String>)| stats_entry_uid(e)),
            import_stats(
                (StatsTables { stats: stats_tbl@, pkeys: pkeys_tbl@ }),
                entries@.skip(i as int),
            ) == import_stats(start, entries@),
        decreases entries@.len() - i,
    {
        let ghost pre = StatsTables { stats: stats_tbl@, pkeys: pkeys_tbl@ };
        match crate::json::parse_i64(entries[i].0.as_str()) {
            Some(uid) => match &entries[i].1 {
                Some(json) => match crate::json::parse_json(json.as_str()) {
                    Some(v) => {
                        proof {
                            assert(stats_entry_uid(entries@[i as int]) == Some(uid));
                            assert(has_user_id(users@, uid));
                        }
                        if !has_stats_vec(stats_tbl, uid) {
                            let ghost sp = stats_tbl@;
                            let entry = UserStatsEntry {
                                user_id: uid,
                                total_practice_time: crate::json::field_i64(
                                    &v,
                                    "totalPracticeTime",
                                ),
                                total_words_typed: crate::json::field_i64(&v, "totalWordsTyped"),
                                average_wpm: crate::json::field_i64(&v, "averageWpm"),
                                average_accuracy: crate::json::field_i64(&v, "averageAccuracy"),
                                average_true_accuracy: crate::json::field_i64(
                                    &v,
                                    "averageTrueAccuracy",
                                ),
                                total_keystrokes: crate::json::field_i64(&v, "totalKeystrokes"),
                                total_backspaces: crate::json::field_i64(&v, "totalBackspaces"),
                                total_correct_keystrokes: crate::json::field_i64(
                                    &v,
                                    "totalCorrectKeystrokes",
                                ),
                                lessons_completed: crate::json::field_i64(&v, "lessonsCompleted"),
                                current_streak: crate::json::field_i64(&v, "currentStreak"),
                                longest_streak: crate::json::field_i64(&v, "longestStreak"),
                                last_practice_date: crate::json::field_opt_string(
                                    &v,
                                    "lastPracticeDate",
                                ),
                            };
                            stats_tbl.push(entry);
                            proof {
                                assert(stats_tbl@.last() == stats_entry_from_json(uid, v));
                                assert forall|p: int, q: int|
                                    0 <= p < q < stats_tbl@.len() implies stats_tbl@[p].user_id
                                    != stats_tbl@[q].user_id by {
                                    if q < sp.len() as int {
                                        assert(sp[p].user_id != sp[q].user_id);
                                    }
                                }
                            }
                        }
                        match crate::json::get_field(&v, "problemKeys") {
                            Some(pk) => match pk {
                                JsonVal::Arr(items) => {
                                    proof {
                                        assert(items@.skip(0) =~= items@);
                                    }
                                    let mut k: usize = 0;
                                    while k < items.len()
                                        invariant
                                            k <= items@.len(),
                                            has_user_id(users@, uid),
                                            crate::storage::pkeys_unique(pkeys_tbl@),
                                            crate::storage::pkeys_fk(pkeys_tbl@, users@),
                                            import_user_pkeys(
                                                pkeys_tbl@,
                                                uid,
                                                items@.skip(k as int),
                                            ) == import_user_pkeys(pre.pkeys, uid, items@),
                                        decreases items@.len() - k,
                                    {
                                        let ghost ppre = pkeys_tbl@;
                                        match &items[k] {
                                            JsonVal::Arr(cells) => {
                                                if cells.len() == 2 {
                                                    match (&cells[0], &cells[1]) {
                                                        (JsonVal::Text(kk), JsonVal::Int(c)) => {
                                                            if !has_pkey_vec(pkeys_tbl, uid, kk) {
                                                                let pe = ProblemKeyEntry {
                                                                    user_id: uid,
                                                                    key_char: kk.clone(),
                                                                    error_count: *c,
                                                                };
                                                                pkeys_tbl.push(pe);
                                                                proof {
                                                                    assert forall|p: int, q: int|
                                                                        0 <= p < q
                                                                            < pkeys_tbl@.len() implies !(
                                                                    pkeys_tbl@[p].user_id
                                                                        == pkeys_tbl@[q].user_id
                                                                        && pkeys_tbl@[p].key_char@
                                                                        == pkeys_tbl@[q].key_char@) by {
                                                                        if q < ppre.len() as int {
                                                                            assert(!(ppre[p].user_id
                                                                                == ppre[q].user_id
                                                                                && ppre[p].key_char@
                                                                                == ppre[q].key_char@));
                                                                        }
                                                                    }
                                                                }
                                                            }
                                                        },
                                                        _ => {},
                                                    }
                                                }
                                            },
                                            _ => {},
                                        }
                                        proof {
                                            assert(pkeys_tbl@ == pkey_step(
                                                ppre,
                                                uid,
                                                items@[k as int],
                                            ));
                                            assert(items@.skip(k as int)[0] == items@[k as int]);
                                            assert(items@.skip(k as int).drop_first()
                                                =~= items@.skip(k + 1));
                                            assert(import_user_pkeys(
                                                ppre,
                                                uid,
                                                items@.skip(k as int),
                                            ) == import_user_pkeys(
                                                pkeys_tbl@,
                                                uid,
                                                items@.skip(k + 1),
                                            ));
                                        }
                                        k = k + 1;
                                    }
                                    proof {
                                        assert(items@.skip(items@.len() as int).len() == 0);
                                    }
                                },
                                _ => {},
                            },
                            None => {},
                        }
                    },
                    None => {},
                },
                None => {},
            },
            None => {},
        }
        proof {
            assert((StatsTables { stats: stats_tbl@, pkeys: pkeys_tbl@ }) == stats_step(
                pre,
                entries@[i as int],
            ));
            assert(entries@.skip(i as int)[0] == entries@[i as int]);
            assert(entries@.skip(i as int).drop_first() =~= entries@.skip(i + 1));
            assert(import_stats(pre, entries@.skip(i as int)) == import_stats(
                (StatsTables { stats: stats_tbl@, pkeys: pkeys_tbl@ }),
                entries@.skip(i + 1),
            ));
        }
        i = i + 1;
    }
    proof {
        assert(entries@.skip(entries@.len() as int).len() == 0);
    }
}

/// Insert a lesson row for every member of every entry whose blob parses as
/// a JSON object, keyed by (user, lesson).
fn apply_lessons(
    tbl: &mut Vec<LessonEntry>,
    users: &Vec<UserProfile>,
    entries: &Vec<(String, Option<String>)>,
)
    requires
        crate::storage::lessons_unique(old(tbl)@),
        crate::storage::lessons_fk(old(tbl)@, users@),
        entries_fk_ok(users@, entries@, |e: (String, Option<String>)| mapping_entry_uid(e)),
    ensures
        lesson_models(final(tbl)@) == import_lessons(lesson_models(old(tbl)@), entries@),
        crate::storage::lessons_unique(final(tbl)@),
        crate::storage::lessons_fk(final(tbl)@, users@),
{
    proof {
        assert(entries@.skip(0) =~= entries@);
    }
    let mut i: usize = 0;
    while i < entries.len()
        invariant
            i <= entries@.len(),
            crate::storage::lessons_unique(tbl@),
            crate::storage::lessons_fk(tbl@, users@),
            entries_fk_ok(users@, entries@, |e: (String, Option<String>)| mapping_entry_uid(e)),
            import_lessons(lesson_models(tbl@), entries@.skip(i as int)) == import_lessons(
                lesson_models(old(tbl)@),
                entries@,
            ),
        decreases entries@.len() - i,
    {
        let ghost pre = lesson_models(tbl@);
        match crate::json::parse_i64(entries[i].0.as_str()) {
            Some(uid) => match &entries[i].1 {
                Some(json) => match crate::json::parse_json(json.as_str()) {
                    Some(v) => match v {
                        JsonVal::Obj(pairs) => {
                            if pairs.len() > 0 {
                                proof {
                                    assert(mapping_entry_uid(entries@[i as int]) == Some(uid));
                                    assert(has_user_id(users@, uid));
                                }
                            }
                            proof {
                                assert(pairs@.skip(0) =~= pairs@);
                            }
                            let mut k: usize = 0;
                            while k < pairs.len()
                                invariant
                                    k <= pairs@.len(),
                                    pairs@.len() > 0 ==> has_user_id(users@, uid),
                                    crate::storage::lessons_unique(tbl@),
                                    crate::storage::lessons_fk(tbl@, users@),
                                    import_user_lessons(
                                        lesson_models(tbl@),
                                        uid,
                                        pairs@.skip(k as int),
                                    ) == import_user_lessons(pre, uid, pairs@),
                                decreases pairs@.len() - k,
                            {
                                let ghost ppre = tbl@;
                                let key = pairs[k].0.clone();
                                if !has_lesson_vec(tbl, uid, &key) {
                                    let val = &pairs[k].1;
                                    let row = crate::models::LessonProgressRow {
                                        lesson_id: key,
                                        completed_tasks: crate::json::field_i64(
                                            val,
                                            "completedTasks",
                                        ),
                                        total_tasks: crate::json::field_i64(val, "totalTasks"),
                                        best_wpm: crate::json::field_i64(val, "bestWpm"),
                                        average_accuracy: crate::json::field_i64(
                                            val,
                                            "averageAccuracy",
                                        ),
                                        last_task_index: crate::json::field_opt_i64(
                                            val,
                                            "lastTaskIndex",
                                        ),
                                        task_results_json: match crate::json::get_field(
                                            val,
                                            "taskResults",
                                        ) {
                                            Some(x) => crate::json::json_to_string(x),
                                            None => "[]".to_owned(),
                                        },
                                    };
                                    let e = LessonEntry { user_id: uid, row };
                                    tbl.push(e);
                                    proof {
                                        assert(lesson_entry_model(tbl@.last())
                                            == lesson_model_from_json(
                                            uid,
                                            pairs@[k as int].0@,
                                            pairs@[k as int].1,
                                        ));
                                        assert(lesson_models(tbl@) =~= lesson_models(ppre).push(
                                            lesson_entry_model(tbl@.last()),
                                        ));
                                        assert forall|p: int, q: int|
                                            0 <= p < q < tbl@.len() implies !(tbl@[p].user_id
                                            == tbl@[q].user_id && tbl@[p].row.lesson_id@
                                            == tbl@[q].row.lesson_id@) by {
                                            if q < ppre.len() as int {
                                                assert(!(ppre[p].user_id == ppre[q].user_id
                                                    && ppre[p].row.lesson_id@
                                                    == ppre[q].row.lesson_id@));
                                            } else if p < ppre.len() as int {
                                                assert(lesson_models(ppre)[p].user_id
                                                    == ppre[p].user_id);
                                                assert(lesson_models(ppre)[p].lesson_id
                                                    == ppre[p].row.lesson_id@);
                                            }
                                        }
                                    }
                                }
                                proof {
                                    assert(lesson_models(tbl@) == lesson_pair_step(
                                        lesson_models(ppre),
                                        uid,
                                        pairs@[k as int],
                                    ));
                                    assert(pairs@.skip(k as int)[0] == pairs@[k as int]);
                                    assert(pairs@.skip(k as int).drop_first() =~= pairs@.skip(
                                        k + 1,
                                    ));
                                    assert(import_user_lessons(
                                        lesson_models(ppre),
                                        uid,
                                        pairs@.skip(k as int),
                                    ) == import_user_lessons(
                                        lesson_models(tbl@),
                                        uid,
                                        pairs@.skip(k + 1),
                                    ));
                                }
                                k = k + 1;
                            }
                            proof {
                                assert(pairs@.skip(pairs@.len() as int).len() == 0);
                            }
                        },
                        _ => {},
                    },
                    None => {},
                },
                None => {},
            },
            None => {},
        }
        proof {
            assert(lesson_models(tbl@) == lessons_step(pre, entries@[i as int]));
            assert(entries@.skip(i as int)[0] == entries@[i as int]);
            assert(entries@.skip(i as int).drop_first() =~= entries@.skip(i + 1));
            assert(import_lessons(pre, entries@.skip(i as int)) == import_lessons(
                lesson_models(tbl@),
                entries@.skip(i + 1),
            ));
        }
        i = i + 1;
    }
    proof {
        assert(entries@.skip(entries@.len() as int).len() == 0);
    }
}

/// Insert a course row for every member of every entry whose blob parses as
/// a JSON object, keyed by (user, course).
fn apply_courses(
    tbl: &mut Vec<CourseEntry>,
    users: &Vec<UserProfile>,
    entries: &Vec<(String, Option<String>)>,
)
    requires
        crate::storage::courses_unique(old(tbl)@),
        crate::storage::courses_fk(old(tbl)@, users@),
        entries_fk_ok(users@, entries@, |e: (String, Option<String>)| mapping_entry_uid(e)),
    ensures
        course_models(final(tbl)@) == import_courses(course_models(old(tbl)@), entries@),
        crate::storage::courses_unique(final(tbl)@),
        crate::storage::courses_fk(final(tbl)@, users@),
{
    proof {
        assert(entries@.skip(0) =~= entries@);
    }
    let mut i: usize = 0;
    while i < entries.len()
        invariant
            i <= entries@.len(),
            crate::storage::courses_unique(tbl@),
            crate::storage::courses_fk(tbl@, users@),
            entries_fk_ok(users@, entries@, |e: (String, Option<String>)| mapping_entry_uid(e)),
            import_courses(course_models(tbl@), entries@.skip(i as int)) == import_courses(
                course_models(old(tbl)@),
                entries@,
            ),
        decreases entries@.len() - i,
    {
        let ghost pre = course_models(tbl@);
        match crate::json::parse_i64(entries[i].0.as_str()) {
            Some(uid) => match &entries[i].1 {
                Some(json) => match crate::json::parse_json(json.as_str()) {
                    Some(v) => match v {
                        JsonVal::Obj(pairs) => {
                            if pairs.len() > 0 {
                                proof {
                                    assert(mapping_entry_uid(entries@[i as int]) == Some(uid));
                                    assert(has_user_id(users@, uid));
                                }
                            }
                            proof {
                                assert(pairs@.skip(0) =~= pairs@);
                            }
                            let mut k: usize = 0;
                            while k < pairs.len()
                                invariant
                                    k <= pairs@.len(),
                                    pairs@.len() > 0 ==> has_user_id(users@, uid),
                                    crate::storage::courses_unique(tbl@),
                                    crate::storage::courses_fk(tbl@, users@),
                                    import_user_courses(
                                        course_models(tbl@),
                                        uid,
                                        pairs@.skip(k as int),
                                    ) == import_user_courses(pre, uid, pairs@),
                                decreases pairs@.len() - k,
                            {
                                let ghost ppre = tbl@;
                                let key = pairs[k].0.clone();
                                if !has_course_vec(tbl, uid, &key) {
                                    let val = &pairs[k].1;
                                    let row = crate::models::CourseProgressRow {
                                        course_id: key,
                                        current_stage_id: crate::json::field_opt_string(
                                            val,
                                            "currentStageId",
                                        ),
                                        completed_stages_json: match crate::json::get_field(
                                            val,
                                            "completedStages",
                                        ) {
                                            Some(x) => crate::json::json_to_string(x),
                                            None => "[]".to_owned(),
                                        },
                                        skipped_stages_json: match crate::json::get_field(
                                            val,
                                            "skippedStages",
                                        ) {
                                            Some(x) => crate::json::json_to_string(x),
                                            None => "[]".to_owned(),
                                        },
                                        enrolled_at: match crate::json::field_opt_string(
                                            val,
                                            "enrolledAt",
                                        ) {
                                            Some(s) => s,
                                            None => String::new(),
                                        },
                                        completed_at: crate::json::field_opt_string(
                                            val,
                                            "completedAt",
                                        ),
                                    };
                                    let e = CourseEntry { user_id: uid, row };
                                    tbl.push(e);
                                    proof {
                                        assert(course_entry_model(tbl@.last())
                                            == course_model_from_json(
                                            uid,
                                            pairs@[k as int].0@,
                                            pairs@[k as int].1,
                                        ));
                                        assert(course_models(tbl@) =~= course_models(ppre).push(
                                            course_entry_model(tbl@.last()),
                                        ));
                                        assert forall|p: int, q: int|
                                            0 <= p < q < tbl@.len() implies !(tbl@[p].user_id
                                            == tbl@[q].user_id && tbl@[p].row.course_id@
                                            == tbl@[q].row.course_id@) by {
                                            if q < ppre.len() as int {
                                                assert(!(ppre[p].user_id == ppre[q].user_id
                                                    && ppre[p].row.course_id@
                                                    == ppre[q].row.course_id@));
                                            } else if p < ppre.len() as int {
                                                assert(course_models(ppre)[p].user_id
                                                    == ppre[p].user_id);
                                                assert(course_models(ppre)[p].course_id
                                                    == ppre[p].row.course_id@);
                                            }
                                        }
                                    }
                                }
                                proof {
                                    assert(course_models(tbl@) == course_pair_step(
                                        course_models(ppre),
                                        uid,
                                        pairs@[k as int],
                                    ));
                                    assert(pairs@.skip(k as int)[0] == pairs@[k as int]);
                                    assert(pairs@.skip(k as int).drop_first() =~= pairs@.skip(
                                        k + 1,
                                    ));
                                    assert(import_user_courses(
                                        course_models(ppre),
                                        uid,
                                        pairs@.skip(k as int),
                                    ) == import_user_courses(
                                        course_models(tbl@),
                                        uid,
                                        pairs@.skip(k + 1),
                                    ));
                                }
                                k = k + 1;
                            }
                            proof {
                                assert(pairs@.skip(pairs@.len() as int).len() == 0);
                            }
                        },
                        _ => {},
                    },
                    None => {},
                },
                None => {},
            },
            None => {},
        }
        proof {
            assert(course_models(tbl@) == courses_step(pre, entries@[i as int]));
            assert(entries@.skip(i as int)[0] == entries@[i as int]);
            assert(entries@.skip(i as int).drop_first() =~= entries@.skip(i + 1));
            assert(import_courses(pre, entries@.skip(i as int)) == import_courses(
                course_models(tbl@),
                entries@.skip(i + 1),
            ));
        }
        i = i + 1;
    }
    proof {
        assert(entries@.skip(entries@.len() as int).len() == 0);
    }
}

/// Insert a snippet row for every element of every entry whose blob parses
/// as a JSON array, keyed globally by snippet id.
fn apply_snippets(
    tbl: &mut Vec<crate::models::CustomSnippetRow>,
    users: &Vec<UserProfile>,
    entries: &Vec<(String, Option<String>)>,
)
    requires
        crate::storage::snippets_unique(old(tbl)@),
        crate::storage::snippets_fk(old(tbl)@, users@),
        entries_fk_ok(users@, entries@, |e: (String, Option<String>)| snippets_entry_uid(e)),
    ensures
        snippet_models(final(tbl)@) == import_snippets(snippet_models(old(tbl)@), entries@),
        crate::storage::snippets_unique(final(tbl)@),
        crate::storage::snippets_fk(final(tbl)@, users@),
{
    proof {
        assert(entries@.skip(0) =~= entries@);
    }
    let mut i: usize = 0;
    while i < entries.len()
        invariant
            i <= entries@.len(),
            crate::storage::snippets_unique(tbl@),
            crate::storage::snippets_fk(tbl@, users@),
            entries_fk_ok(users@, entries@, |e: (String, Option<String>)| snippets_entry_uid(e)),
            import_snippets(snippet_models(tbl@), entries@.skip(i as int)) == import_snippets(
                snippet_models(old(tbl)@),
                entries@,
            ),
        decreases entries@.len() - i,
    {
        let ghost pre = snippet_models(tbl@);
        match crate::json::parse_i64(entries[i].0.as_str()) {
            Some(uid) => match &entries[i].1 {
                Some(json) => match crate::json::parse_json(json.as_str()) {
                    Some(v) => match v {
                        JsonVal::Arr(items) => {
                            if items.len() > 0 {
                                proof {
                                    assert(snippets_entry_uid(entries@[i as int]) == Some(uid));
                                    assert(has_user_id(users@, uid));
                                }
                            }
                            proof {
                                assert(items@.skip(0) =~= items@);
                            }
                            let mut k: usize = 0;
                            while k < items.len()
                                invariant
                                    k <= items@.len(),
                                    items@.len() > 0 ==> has_user_id(users@, uid),
                                    crate::storage::snippets_unique(tbl@),
                                    crate::storage::snippets_fk(tbl@, users@),
                                    import_user_snippets(
                                        snippet_models(tbl@),
                                        uid,
                                        items@.skip(k as int),
                                    ) == import_user_snippets(pre, uid, items@),
                                decreases items@.len() - k,
                            {
                                let ghost ppre = tbl@;
                                let x = &items[k];
                                let id_s = match crate::json::field_opt_string(x, "id") {
                                    Some(s) => s,
                                    None => String::new(),
                                };
                                if !has_snippet_id_vec(tbl, &id_s) {
                                    let row = crate::models::CustomSnippetRow {
                                        id: id_s,
                                        user_id: uid,
                                        name: match crate::json::field_opt_string(x, "name") {
                                            Some(s) => s,
                                            None => String::new(),
                                        },
                                        content: match crate::json::field_opt_string(x, "content") {
                                            Some(s) => s,
                                            None => String::new(),
                                        },
                                        language: crate::json::field_opt_string(x, "language"),
                                        mode: match crate::json::field_opt_string(x, "mode") {
                                            Some(s) => s,
                                            None => "text".to_owned(),
                                        },
                                        created_at: match crate::json::field_opt_string(
                                            x,
                                            "createdAt",
                                        ) {
                                            Some(s) => s,
                                            None => String::new(),
                                        },
                                        practice_count: crate::json::field_i64(x, "practiceCount"),
                                        best_wpm: crate::json::field_opt_i64(x, "bestWpm"),
                                        best_accuracy: crate::json::field_opt_i64(
                                            x,
                                            "bestAccuracy",
                                        ),
                                    };
                                    tbl.push(row);
                                    proof {
                                        assert(snippet_row_model(tbl@.last())
                                            == snippet_model_from_json(uid, items@[k as int]));
                                        assert(snippet_models(tbl@) =~= snippet_models(ppre).push(
                                            snippet_row_model(tbl@.last()),
                                        ));
                                        assert forall|p: int, q: int|
                                            0 <= p < q < tbl@.len() implies tbl@[p].id@
                                            != tbl@[q].id@ by {
                                            if q < ppre.len() as int {
                                                assert(ppre[p].id@ != ppre[q].id@);
                                            } else if p < ppre.len() as int {
                                                assert(snippet_models(ppre)[p].id == ppre[p].id@);
                                            }
                                        }
                                    }
                                }
                                proof {
                                    assert(snippet_models(tbl@) == snippet_item_step(
                                        snippet_models(ppre),
                                        uid,
                                        items@[k as int],
                                    ));
                                    assert(items@.skip(k as int)[0] == items@[k as int]);
                                    assert(items@.skip(k as int).drop_first() =~= items@.skip(
                                        k + 1,
                                    ));
                                    assert(import_user_snippets(
                                        snippet_models(ppre),
                                        uid,
                                        items@.skip(k as int),
                                    ) == import_user_snippets(
                                        snippet_models(tbl@),
                                        uid,
                                        items@.skip(k + 1),
                                    ));
                                }
                                k = k + 1;
                            }
                            proof {
                                assert(items@.skip(items@.len() as int).len() == 0);
                            }
                        },
                        _ => {},
                    },
                    None => {},
                },
                None => {},
            },
            None => {},
        }
        proof {
            assert(snippet_models(tbl@) == snippets_step(pre, entries@[i as int]));
            assert(entries@.skip(i as int)[0] == entries@[i as int]);
            assert(entries@.skip(i as int).drop_first() =~= entries@.skip(i + 1));
            assert(import_snippets(pre, entries@.skip(i as int)) == import_snippets(
                snippet_models(tbl@),
                entries@.skip(i + 1),
            ));
        }
        i = i + 1;
    }
    proof {
        assert(entries@.skip(entries@.len() as int).len() == 0);
    }
}

/// Insert an activity row for every member of every entry whose blob parses
/// as a JSON object, keyed by (user, date).
fn apply_activity(
    tbl: &mut Vec<ActivityEntry>,
    users: &Vec<UserProfile>,
    entries: &Vec<(String, Option<String>)>,
)
    requires
        crate::storage::activity_unique(old(tbl)@),
        crate::storage::activity_fk(old(tbl)@, users@),
        entries_fk_ok(users@, entries@, |e: (String, Option<String>)| mapping_entry_uid(e)),
    ensures
        final(tbl)@ == import_activity(old(tbl)@, entries@),
        crate::storage::activity_unique(final(tbl)@),
        crate::storage::activity_fk(final(tbl)@, users@),
{
    proof {
        assert(entries@.skip(0) =~= entries@);
    }
    let mut i: usize = 0;
    while i < entries.len()
        invariant
            i <= entries@.len(),
            crate::storage::activity_unique(tbl@),
            crate::storage::activity_fk(tbl@, users@),
            entries_fk_ok(users@, entries@, |e: (String, Option<String>)| mapping_entry_uid(e)),
            import_activity(tbl@, entries@.skip(i as int)) == import_activity(
                old(tbl)@,
                entries@,
            ),
        decreases entries@.len() - i,
    {
        let ghost pre = tbl@;
        match crate::json::parse_i64(entries[i].0.as_str()) {
            Some(uid) => match &entries[i].1 {
                Some(json) => match crate::json::parse_json(json.as_str()) {
                    Some(v) => match v {
                        JsonVal::Obj(pairs) => {
                            if pairs.len() > 0 {
                                proof {
                                    assert(mapping_entry_uid(entries@[i as int]) == Some(uid));
                                    assert(has_user_id(users@, uid));
                                }
                            }
                            proof {
                                assert(pairs@.skip(0) =~= pairs@);
                            }
                            let mut k: usize = 0;
                            while k < pairs.len()
                                invariant
                                    k <= pairs@.len(),
                                    pairs@.len() > 0 ==> has_user_id(users@, uid),
                                    crate::storage::activity_unique(tbl@),
                                    crate::storage::activity_fk(tbl@, users@),
                                    import_user_activity(tbl@, uid, pairs@.skip(k as int))
                                        == import_user_activity(pre, uid, pairs@),
                                decreases pairs@.len() - k,
                            {
                                let ghost ppre = tbl@;
                                let key = pairs[k].0.clone();
                                if !has_activity_vec(tbl, uid, &key) {
                                    let val = &pairs[k].1;
                                    let row = DailyActivityRow {
                                        date: key,
                                        practice_time: crate::json::field_i64(val, "practiceTime"),
                                        characters: crate::json::field_i64(val, "characters"),
                                        sessions: crate::json::field_i64(val, "sessions"),
                                    };
                                    let e = ActivityEntry { user_id: uid, row };
                                    tbl.push(e);
                                    proof {
                                        assert forall|p: int, q: int|
                                            0 <= p < q < tbl@.len() implies !(tbl@[p].user_id
                                            == tbl@[q].user_id && tbl@[p].row.date@
                                            == tbl@[q].row.date@) by {
                                            if q < ppre.len() as int {
                                                assert(!(ppre[p].user_id == ppre[q].user_id
                                                    && ppre[p].row.date@ == ppre[q].row.date@));
                                            }
                                        }
                                    }
                                }
                                proof {
                                    assert(tbl@ == activity_pair_step(
                                        ppre,
                                        uid,
                                        pairs@[k as int],
                                    ));
                                    assert(pairs@.skip(k as int)[0] == pairs@[k as int]);
                                    assert(pairs@.skip(k as int).drop_first() =~= pairs@.skip(
                                        k + 1,
                                    ));
                                    assert(import_user_activity(
                                        ppre,
                                        uid,
                                        pairs@.skip(k as int),
                                    ) == import_user_activity(tbl@, uid, pairs@.skip(k + 1)));
                                }
                                k = k + 1;
                            }
                            proof {
                                assert(pairs@.skip(pairs@.len() as int).len() == 0);
                            }
                        },
                        _ => {},
                    },
                    None => {},
                },
                None => {},
            },
            None => {},
        }
        proof {
            assert(tbl@ == activity_step(pre, entries@[i as int]));
            assert(entries@.skip(i as int)[0] == entries@[i as int]);
            assert(entries@.skip(i as int).drop_first() =~= entries@.skip(i + 1));
            assert(import_activity(pre, entries@.skip(i as int)) == import_activity(
                tbl@,
                entries@.skip(i + 1),
            ));
        }
        i = i + 1;
    }
    proof {
        assert(entries@.skip(entries@.len() as int).len() == 0);
    }
}

// ── The idempotency law: a second run of the import changes nothing ─────

proof fn lemma_import_users_noop(w: Seq<UserProfile>, a: Seq<UserProfile>)
    requires
        forall|k: int| 0 <= k < a.len() ==> has_user_id(w, (#[trigger] a[k]).id),
    ensures
        import_users(w, a) == w,
    decreases a.len(),
{
    if a.len() > 0 {
        assert(add_user_if_absent(w, a[0]) == w);
        assert forall|k: int| 0 <= k < a.drop_first().len() implies has_user_id(
            w,
            (#[trigger] a.drop_first()[k]).id,
        ) by {
            assert(a.drop_first()[k] == a[k + 1]);
        }
        lemma_import_users_noop(w, a.drop_first());
    }
}

proof fn lemma_import_users_idem(u: Seq<UserProfile>, a: Seq<UserProfile>)
    ensures
        import_users(import_users(u, a), a) == import_users(u, a),
{
    let w = import_users(u, a);
    assert forall|k: int| 0 <= k < a.len() implies has_user_id(w, (#[trigger] a[k]).id) by {
        lemma_import_users_has(u, a, a[k].id);
    }
    lemma_import_users_noop(w, a);
}

/// Whether a table already holds everything this settings entry would add.
pub open spec fn settings_entry_covered(t: Seq<SettingsEntry>, e: (String, Option<String>)) -> bool {
    match settings_entry_uid(e) {
        Some(uid) => has_settings(t, uid),
        None => true,
    }
}

proof fn lemma_settings_mono(t: Seq<SettingsEntry>, es: Seq<(String, Option<String>)>, uid: i64)
    requires
        has_settings(t, uid),
    ensures
        has_settings(import_settings(t, es), uid),
    decreases es.len(),
{
    if es.len() > 0 {
        let t1 = settings_step(t, es[0]);
        let w = choose|w: int| 0 <= w < t.len() && t[w].user_id == uid;
        assert(t1[w].user_id == uid);
        lemma_settings_mono(t1, es.drop_first(), uid);
    }
}

proof fn lemma_import_settings_covers(t: Seq<SettingsEntry>, es: Seq<(String, Option<String>)>)
    ensures
        forall|j: int| 0 <= j < es.len() ==> settings_entry_covered(
            import_settings(t, es),
            #[trigger] es[j],
        ),
    decreases es.len(),
{
    if es.len() > 0 {
        let t1 = settings_step(t, es[0]);
        lemma_import_settings_covers(t1, es.drop_first());
        assert forall|j: int| 0 <= j < es.len() implies settings_entry_covered(
            import_settings(t, es),
            #[trigger] es[j],
        ) by {
            if j == 0 {
                match settings_entry_uid(es[0]) {
                    Some(uid) => {
                        if !has_settings(t, uid) {
                            assert(t1[t.len() as int].user_id == uid);
                        }
                        assert(has_settings(t1, uid));
                        lemma_settings_mono(t1, es.drop_first(), uid);
                    },
                    None => {},
                }
            } else {
                assert(es.drop_first()[j - 1] == es[j]);
            }
        }
    }
}

proof fn lemma_import_settings_noop(t: Seq<SettingsEntry>, es: Seq<(String, Option<String>)>)
    requires
        forall|j: int| 0 <= j < es.len() ==> settings_entry_covered(t, #[trigger] es[j]),
    ensures
        import_settings(t, es) == t,
    decreases es.len(),
{
    if es.len() > 0 {
        assert(settings_step(t, es[0]) == t);
        assert forall|j: int| 0 <= j < es.drop_first().len() implies settings_entry_covered(
            t,
            #[trigger] es.drop_first()[j],
        ) by {
            assert(es.drop_first()[j] == es[j + 1]);
        }
        lemma_import_settings_noop(t, es.drop_first());
    }
}

proof fn lemma_import_settings_idem(t: Seq<SettingsEntry>, es: Seq<(String, Option<String>)>)
    ensures
        import_settings(import_settings(t, es), es) == import_settings(t, es),
{
    lemma_import_settings_covers(t, es);
    lemma_import_settings_noop(import_settings(t, es), es);
}

proof fn lemma_daily_mono(t: Seq<DailyTestResultRow>, rows: Seq<DailyTestResultRow>, uid: i64, date: Seq<char>)
    requires
        has_daily(t, uid, date),
    ensures
        has_daily(import_daily(t, rows), uid, date),
    decreases rows.len(),
{
    if rows.len() > 0 {
        let t1 = daily_step(t, rows[0]);
        let w = choose|w: int| 0 <= w < t.len() && t[w].user_id == uid && t[w].date@ == date;
        assert(t1[w].user_id == uid && t1[w].date@ == date);
        lemma_daily_mono(t1, rows.drop_first(), uid, date);
    }
}

proof fn lemma_import_daily_covers(t: Seq<DailyTestResultRow>, rows: Seq<DailyTestResultRow>)
    ensures
        forall|j: int| 0 <= j < rows.len() ==> has_daily(
            import_daily(t, rows),
            (#[trigger] rows[j]).user_id,
            rows[j].date@,
        ),
    decreases rows.len(),
{
    if rows.len() > 0 {
        let t1 = daily_step(t, rows[0]);
        lemma_import_daily_covers(t1, rows.drop_first());
        assert forall|j: int| 0 <= j < rows.len() implies has_daily(
            import_daily(t, rows),
            (#[trigger] rows[j]).user_id,
            rows[j].date@,
        ) by {
            if j == 0 {
                if !has_daily(t, rows[0].user_id, rows[0].date@) {
                    assert(t1[t.len() as int] == rows[0]);
                }
                assert(has_daily(t1, rows[0].user_id, rows[0].date@));
                lemma_daily_mono(t1, rows.drop_first(), rows[0].user_id, rows[0].date@);
            } else {
                assert(rows.drop_first()[j - 1] == rows[j]);
            }
        }
    }
}

proof fn lemma_import_daily_noop(t: Seq<DailyTestResultRow>, rows: Seq<DailyTestResultRow>)
    requires
        forall|j: int| 0 <= j < rows.len() ==> has_daily(
            t,
            (#[trigger] rows[j]).user_id,
            rows[j].date@,
        ),
    ensures
        import_daily(t, rows) == t,
    decreases rows.len(),
{
    if rows.len() > 0 {
        assert(daily_step(t, rows[0]) == t);
        assert forall|j: int| 0 <= j < rows.drop_first().len() implies has_daily(
            t,
            (#[trigger] rows.drop_first()[j]).user_id,
            rows.drop_first()[j].date@,
        ) by {
            assert(rows.drop_first()[j] == rows[j + 1]);
        }
        lemma_import_daily_noop(t, rows.drop_first());
    }
}

proof fn lemma_import_daily_idem(t: Seq<DailyTestResultRow>, rows: Seq<DailyTestResultRow>)
    ensures
        import_daily(import_daily(t, rows), rows) == import_daily(t, rows),
{
    lemma_import_daily_covers(t, rows);
    lemma_import_daily_noop(import_daily(t, rows), rows);
}

/// Whether a problem-key table already holds every pair of this list.
pub open spec fn pkey_items_covered(pk: Seq<ProblemKeyEntry>, uid: i64, items: Seq<JsonVal>) -> bool {
    forall|k: int|
        0 <= k < items.len() ==> match pkey_pair_of(#[trigger] items[k]) {
            Some(p) => has_pkey(pk, uid, p.0@),
            None => true,
        }
}

/// Whether the tables already hold everything this stats entry would add.
pub open spec fn stats_entry_covered(t: StatsTables, e: (String, Option<String>)) -> bool {
    match spec_parse_i64(e.0@) {
        Some(uid) => match e.1 {
            Some(json) => match spec_json_parse(json@) {
                Some(v) => has_stats(t.stats, uid) && (match obj_lookup(v, "problemKeys"@) {
                    Some(JsonVal::Arr(items)) => pkey_items_covered(t.pkeys, uid, items@),
                    _ => true,
                }),
                None => true,
            },
            None => true,
        },
        None => true,
    }
}

proof fn lemma_user_pkeys_mono(
    t: Seq<ProblemKeyEntry>,
    uid: i64,
    items: Seq<JsonVal>,
    uid2: i64,
    key: Seq<char>,
)
    requires
        has_pkey(t, uid2, key),
    ensures
        has_pkey(import_user_pkeys(t, uid, items), uid2, key),
    decreases items.len(),
{
    if items.len() > 0 {
        let t1 = pkey_step(t, uid, items[0]);
        let w = choose|w: int| 0 <= w < t.len() && t[w].user_id == uid2 && t[w].key_char@ == key;
        assert(t1[w].user_id == uid2 && t1[w].key_char@ == key);
        lemma_user_pkeys_mono(t1, uid, items.drop_first(), uid2, key);
    }
}

proof fn lemma_user_pkeys_covers(t: Seq<ProblemKeyEntry>, uid: i64, items: Seq<JsonVal>)
    ensures
        pkey_items_covered(import_user_pkeys(t, uid, items), uid, items),
    decreases items.len(),
{
    if items.len() > 0 {
        let t1 = pkey_step(t, uid, items[0]);
        lemma_user_pkeys_covers(t1, uid, items.drop_first());
        assert forall|k: int| 0 <= k < items.len() implies match pkey_pair_of(
            #[trigger] items[k],
        ) {
            Some(p) => has_pkey(import_user_pkeys(t, uid, items), uid, p.0@),
            None => true,
        } by {
            if k == 0 {
                match pkey_pair_of(items[0]) {
                    Some(p) => {
                        if !has_pkey(t, uid, p.0@) {
                            assert(t1[t.len() as int].user_id == uid && t1[t.len() as int].key_char@
                                == p.0@);
                        }
                        assert(has_pkey(t1, uid, p.0@));
                        lemma_user_pkeys_mono(t1, uid, items.drop_first(), uid, p.0@);
                    },
                    None => {},
                }
            } else {
                assert(items.drop_first()[k - 1] == items[k]);
            }
        }
    }
}

proof fn lemma_user_pkeys_noop(t: Seq<ProblemKeyEntry>, uid: i64, items: Seq<JsonVal>)
    requires
        pkey_items_covered(t, uid, items),
    ensures
        import_user_pkeys(t, uid, items) == t,
    decreases items.len(),
{
    if items.len() > 0 {
        assert(pkey_step(t, uid, items[0]) == t);
        assert forall|k: int| 0 <= k < items.drop_first().len() implies match pkey_pair_of(
            #[trigger] items.drop_first()[k],
        ) {
            Some(p) => has_pkey(t, uid, p.0@),
            None => true,
        } by {
            assert(items.drop_first()[k] == items[k + 1]);
        }
        lemma_user_pkeys_noop(t, uid, items.drop_first());
    }
}

proof fn lemma_stats_has_mono(t: StatsTables, es: Seq<(String, Option<String>)>, uid: i64)
    requires
        has_stats(t.stats, uid),
    ensures
        has_stats(import_stats(t, es).stats, uid),
    decreases es.len(),
{
    if es.len() > 0 {
        let t1 = stats_step(t, es[0]);
        let w = choose|w: int| 0 <= w < t.stats.len() && t.stats[w].user_id == uid;
        assert(t1.stats[w].user_id == uid);
        lemma_stats_has_mono(t1, es.drop_first(), uid);
    }
}

proof fn lemma_stats_pkey_mono(
    t: StatsTables,
    es: Seq<(String, Option<String>)>,
    uid2: i64,
    key: Seq<char>,
)
    requires
        has_pkey(t.pkeys, uid2, key),
    ensures
        has_pkey(import_stats(t, es).pkeys, uid2, key),
    decreases es.len(),
{
    if es.len() > 0 {
        let t1 = stats_step(t, es[0]);
        match spec_parse_i64(es[0].0@) {
            Some(uid) => match es[0].1 {
                Some(json) => match spec_json_parse(json@) {
                    Some(v) => match obj_lookup(v, "problemKeys"@) {
                        Some(JsonVal::Arr(items)) => {
                            lemma_user_pkeys_mono(t.pkeys, uid, items@, uid2, key);
                        },
                        _ => {},
                    },
                    None => {},
                },
                None => {},
            },
            None => {},
        }
        lemma_stats_pkey_mono(t1, es.drop_first(), uid2, key);
    }
}

proof fn lemma_import_stats_covers(t: StatsTables, es: Seq<(String, Option<String>)>)
    ensures
        forall|j: int| 0 <= j < es.len() ==> stats_entry_covered(
            import_stats(t, es),
            #[trigger] es[j],
        ),
    decreases es.len(),
{
    if es.len() > 0 {
        let t1 = stats_step(t, es[0]);
        lemma_import_stats_covers(t1, es.drop_first());
        assert forall|j: int| 0 <= j < es.len() implies stats_entry_covered(
            import_stats(t, es),
            #[trigger] es[j],
        ) by {
            if j == 0 {
                match spec_parse_i64(es[0].0@) {
                    Some(uid) => match es[0].1 {
                        Some(json) => match spec_json_parse(json@) {
                            Some(v) => {
                                if !has_stats(t.stats, uid) {
                                    assert(t1.stats[t.stats.len() as int].user_id == uid);
                                }
                                assert(has_stats(t1.stats, uid));
                                lemma_stats_has_mono(t1, es.drop_first(), uid);
                                match obj_lookup(v, "problemKeys"@) {
                                    Some(JsonVal::Arr(items)) => {
                                        lemma_user_pkeys_covers(t.pkeys, uid, items@);
                                        assert forall|k: int|
                                            0 <= k < items@.len() implies match pkey_pair_of(
                                            #[trigger] items@[k],
                                        ) {
                                            Some(p) => has_pkey(
                                                import_stats(t, es).pkeys,
                                                uid,
                                                p.0@,
                                            ),
                                            None => true,
                                        } by {
                                            match pkey_pair_of(items@[k]) {
                                                Some(p) => {
                                                    lemma_stats_pkey_mono(
                                                        t1,
                                                        es.drop_first(),
                                                        uid,
                                                        p.0@,
                                                    );
                                                },
                                                None => {},
                                            }
                                        }
                                    },
                                    _ => {},
                                }
                            },
                            None => {},
                        },
                        None => {},
                    },
                    None => {},
                }
            } else {
                assert(es.drop_first()[j - 1] == es[j]);
            }
        }
    }
}

proof fn lemma_import_stats_noop(t: StatsTables, es: Seq<(String, Option<String>)>)
    requires
        forall|j: int| 0 <= j < es.len() ==> stats_entry_covered(t, #[trigger] es[j]),
    ensures
        import_stats(t, es) == t,
    decreases es.len(),
{
    if es.len() > 0 {
        match spec_parse_i64(es[0].0@) {
            Some(uid) => match es[0].1 {
                Some(json) => match spec_json_parse(json@) {
                    Some(v) => match obj_lookup(v, "problemKeys"@) {
                        Some(JsonVal::Arr(items)) => {
                            lemma_user_pkeys_noop(t.pkeys, uid, items@);
                        },
                        _ => {},
                    },
                    None => {},
                },
                None => {},
            },
            None => {},
        }
        assert(stats_step(t, es[0]) == t);
        assert forall|j: int| 0 <= j < es.drop_first().len() implies stats_entry_covered(
            t,
            #[trigger] es.drop_first()[j],
        ) by {
            assert(es.drop_first()[j] == es[j + 1]);
        }
        lemma_import_stats_noop(t, es.drop_first());
    }
}

proof fn lemma_import_stats_idem(t: StatsTables, es: Seq<(String, Option<String>)>)
    ensures
        import_stats(import_stats(t, es), es) == import_stats(t, es),
{
    lemma_import_stats_covers(t, es);
    lemma_import_stats_noop(import_stats(t, es), es);
}

/// Whether a lesson table already holds every row this entry would add.
pub open spec fn lessons_entry_covered(t: Seq<LessonRowModel>, e: (String, Option<String>)) -> bool {
    match spec_parse_i64(e.0@) {
        Some(uid) => match e.1 {
            Some(json) => match spec_json_parse(json@) {
                Some(JsonVal::Obj(pairs)) => forall|k: int|
                    0 <= k < pairs@.len() ==> has_lesson_model(
                        t,
                        uid,
                        (#[trigger] pairs@[k]).0@,
                    ),
                _ => true,
            },
            None => true,
        },
        None => true,
    }
}

proof fn lemma_user_lessons_mono(
    t: Seq<LessonRowModel>,
    uid: i64,
    pairs: Seq<(String, JsonVal)>,
    uid2: i64,
    lesson: Seq<char>,
)
    requires
        has_lesson_model(t, uid2, lesson),
    ensures
        has_lesson_model(import_user_lessons(t, uid, pairs), uid2, lesson),
    decreases pairs.len(),
{
    if pairs.len() > 0 {
        let t1 = lesson_pair_step(t, uid, pairs[0]);
        let w = choose|w: int| 0 <= w < t.len() && t[w].user_id == uid2 && t[w].lesson_id == lesson;
        assert(t1[w].user_id == uid2 && t1[w].lesson_id == lesson);
        lemma_user_lessons_mono(t1, uid, pairs.drop_first(), uid2, lesson);
    }
}

proof fn lemma_user_lessons_covers(t: Seq<LessonRowModel>, uid: i64, pairs: Seq<(String, JsonVal)>)
    ensures
        forall|k: int| 0 <= k < pairs.len() ==> has_lesson_model(
            import_user_lessons(t, uid, pairs),
            uid,
            (#[trigger] pairs[k]).0@,
        ),
    decreases pairs.len(),
{
    if pairs.len() > 0 {
        let t1 = lesson_pair_step(t, uid, pairs[0]);
        lemma_user_lessons_covers(t1, uid, pairs.drop_first());
        assert forall|k: int| 0 <= k < pairs.len() implies has_lesson_model(
            import_user_lessons(t, uid, pairs),
            uid,
            (#[trigger] pairs[k]).0@,
        ) by {
            if k == 0 {
                if !has_lesson_model(t, uid, pairs[0].0@) {
                    assert(t1[t.len() as int].user_id == uid && t1[t.len() as int].lesson_id
                        == pairs[0].0@);
                }
                assert(has_lesson_model(t1, uid, pairs[0].0@));
                lemma_user_lessons_mono(t1, uid, pairs.drop_first(), uid, pairs[0].0@);
            } else {
                assert(pairs.drop_first()[k - 1] == pairs[k]);
            }
        }
    }
}

proof fn lemma_user_lessons_noop(t: Seq<LessonRowModel>, uid: i64, pairs: Seq<(String, JsonVal)>)
    requires
        forall|k: int| 0 <= k < pairs.len() ==> has_lesson_model(
            t,
            uid,
            (#[trigger] pairs[k]).0@,
        ),
    ensures
        import_user_lessons(t, uid, pairs) == t,
    decreases pairs.len(),
{
    if pairs.len() > 0 {
        assert(lesson_pair_step(t, uid, pairs[0]) == t);
        assert forall|k: int| 0 <= k < pairs.drop_first().len() implies has_lesson_model(
            t,
            uid,
            (#[trigger] pairs.drop_first()[k]).0@,
        ) by {
            assert(pairs.drop_first()[k] == pairs[k + 1]);
        }
        lemma_user_lessons_noop(t, uid, pairs.drop_first());
    }
}

proof fn lemma_lessons_mono(
    t: Seq<LessonRowModel>,
    es: Seq<(String, Option<String>)>,
    uid2: i64,
    lesson: Seq<char>,
)
    requires
        has_lesson_model(t, uid2, lesson),
    ensures
        has_lesson_model(import_lessons(t, es), uid2, lesson),
    decreases es.len(),
{
    if es.len() > 0 {
        let t1 = lessons_step(t, es[0]);
        match spec_parse_i64(es[0].0@) {
            Some(uid) => match es[0].1 {
                Some(json) => match spec_json_parse(json@) {
                    Some(JsonVal::Obj(pairs)) => {
                        lemma_user_lessons_mono(t, uid, pairs@, uid2, lesson);
                    },
                    _ => {},
                },
                None => {},
            },
            None => {},
        }
        lemma_lessons_mono(t1, es.drop_first(), uid2, lesson);
    }
}

proof fn lemma_import_lessons_covers(t: Seq<LessonRowModel>, es: Seq<(String, Option<String>)>)
    ensures
        forall|j: int| 0 <= j < es.len() ==> lessons_entry_covered(
            import_lessons(t, es),
            #[trigger] es[j],
        ),
    decreases es.len(),
{
    if es.len() > 0 {
        let t1 = lessons_step(t, es[0]);
        lemma_import_lessons_covers(t1, es.drop_first());
        assert forall|j: int| 0 <= j < es.len() implies lessons_entry_covered(
            import_lessons(t, es),
            #[trigger] es[j],
        ) by {
            if j == 0 {
                match spec_parse_i64(es[0].0@) {
                    Some(uid) => match es[0].1 {
                        Some(json) => match spec_json_parse(json@) {
                            Some(JsonVal::Obj(pairs)) => {
                                lemma_user_lessons_covers(t, uid, pairs@);
                                assert forall|k: int| 0 <= k < pairs@.len() implies
                                    has_lesson_model(
                                    import_lessons(t, es),
                                    uid,
                                    (#[trigger] pairs@[k]).0@,
                                ) by {
                                    lemma_lessons_mono(t1, es.drop_first(), uid, pairs@[k].0@);
                                }
                            },
                            _ => {},
                        },
                        None => {},
                    },
                    None => {},
                }
            } else {
                assert(es.drop_first()[j - 1] == es[j]);
            }
        }
    }
}

proof fn lemma_import_lessons_noop(t: Seq<LessonRowModel>, es: Seq<(String, Option<String>)>)
    requires
        forall|j: int| 0 <= j < es.len() ==> lessons_entry_covered(t, #[trigger] es[j]),
    ensures
        import_lessons(t, es) == t,
    decreases es.len(),
{
    if es.len() > 0 {
        match spec_parse_i64(es[0].0@) {
            Some(uid) => match es[0].1 {
                Some(json) => match spec_json_parse(json@) {
                    Some(JsonVal::Obj(pairs)) => {
                        lemma_user_lessons_noop(t, uid, pairs@);
                    },
                    _ => {},
                },
                None => {},
            },
            None => {},
        }
        assert(lessons_step(t, es[0]) == t);
        assert forall|j: int| 0 <= j < es.drop_first().len() implies lessons_entry_covered(
            t,
            #[trigger] es.drop_first()[j],
        ) by {
            assert(es.drop_first()[j] == es[j + 1]);
        }
        lemma_import_lessons_noop(t, es.drop_first());
    }
}

proof fn lemma_import_lessons_idem(t: Seq<LessonRowModel>, es: Seq<(String, Option<String>)>)
    ensures
        import_lessons(import_lessons(t, es), es) == import_lessons(t, es),
{
    lemma_import_lessons_covers(t, es);
    lemma_import_lessons_noop(import_lessons(t, es), es);
}

/// Whether a course table already holds every row this entry would add.
pub open spec fn courses_entry_covered(t: Seq<CourseRowModel>, e: (String, Option<String>)) -> bool {
    match spec_parse_i64(e.0@) {
        Some(uid) => match e.1 {
            Some(json) => match spec_json_parse(json@) {
                Some(JsonVal::Obj(pairs)) => forall|k: int|
                    0 <= k < pairs@.len() ==> has_course_model(
                        t,
                        uid,
                        (#[trigger] pairs@[k]).0@,
                    ),
                _ => true,
            },
            None => true,
        },
        None => true,
    }
}

proof fn lemma_user_courses_mono(
    t: Seq<CourseRowModel>,
    uid: i64,
    pairs: Seq<(String, JsonVal)>,
    uid2: i64,
    course: Seq<char>,
)
    requires
        has_course_model(t, uid2, course),
    ensures
        has_course_model(import_user_courses(t, uid, pairs), uid2, course),
    decreases pairs.len(),
{
    if pairs.len() > 0 {
        let t1 = course_pair_step(t, uid, pairs[0]);
        let w = choose|w: int| 0 <= w < t.len() && t[w].user_id == uid2 && t[w].course_id == course;
        assert(t1[w].user_id == uid2 && t1[w].course_id == course);
        lemma_user_courses_mono(t1, uid, pairs.drop_first(), uid2, course);
    }
}

proof fn lemma_user_courses_covers(t: Seq<CourseRowModel>, uid: i64, pairs: Seq<(String, JsonVal)>)
    ensures
        forall|k: int| 0 <= k < pairs.len() ==> has_course_model(
            import_user_courses(t, uid, pairs),
            uid,
            (#[trigger] pairs[k]).0@,
        ),
    decreases pairs.len(),
{
    if pairs.len() > 0 {
        let t1 = course_pair_step(t, uid, pairs[0]);
        lemma_user_courses_covers(t1, uid, pairs.drop_first());
        assert forall|k: int| 0 <= k < pairs.len() implies has_course_model(
            import_user_courses(t, uid, pairs),
            uid,
            (#[trigger] pairs[k]).0@,
        ) by {
            if k == 0 {
                if !has_course_model(t, uid, pairs[0].0@) {
                    assert(t1[t.len() as int].user_id == uid && t1[t.len() as int].course_id
                        == pairs[0].0@);
                }
                assert(has_course_model(t1, uid, pairs[0].0@));
                lemma_user_courses_mono(t1, uid, pairs.drop_first(), uid, pairs[0].0@);
            } else {
                assert(pairs.drop_first()[k - 1] == pairs[k]);
            }
        }
    }
}

proof fn lemma_user_courses_noop(t: Seq<CourseRowModel>, uid: i64, pairs: Seq<(String, JsonVal)>)
    requires
        forall|k: int| 0 <= k < pairs.len() ==> has_course_model(
            t,
            uid,
            (#[trigger] pairs[k]).0@,
        ),
    ensures
        import_user_courses(t, uid, pairs) == t,
    decreases pairs.len(),
{
    if pairs.len() > 0 {
        assert(course_pair_step(t, uid, pairs[0]) == t);
        assert forall|k: int| 0 <= k < pairs.drop_first().len() implies has_course_model(
            t,
            uid,
            (#[trigger] pairs.drop_first()[k]).0@,
        ) by {
            assert(pairs.drop_first()[k] == pairs[k + 1]);
        }
        lemma_user_courses_noop(t, uid, pairs.drop_first());
    }
}

proof fn lemma_courses_mono(
    t: Seq<CourseRowModel>,
    es: Seq<(String, Option<String>)>,
    uid2: i64,
    course: Seq<char>,
)
    requires
        has_course_model(t, uid2, course),
    ensures
        has_course_model(import_courses(t, es), uid2, course),
    decreases es.len(),
{
    if es.len() > 0 {
        let t1 = courses_step(t, es[0]);
        match spec_parse_i64(es[0].0@) {
            Some(uid) => match es[0].1 {
                Some(json) => match spec_json_parse(json@) {
                    Some(JsonVal::Obj(pairs)) => {
                        lemma_user_courses_mono(t, uid, pairs@, uid2, course);
                    },
                    _ => {},
                },
                None => {},
            },
            None => {},
        }
        lemma_courses_mono(t1, es.drop_first(), uid2, course);
    }
}

proof fn lemma_import_courses_covers(t: Seq<CourseRowModel>, es: Seq<(String, Option<String>)>)
    ensures
        forall|j: int| 0 <= j < es.len() ==> courses_entry_covered(
            import_courses(t, es),
            #[trigger] es[j],
        ),
    decreases es.len(),
{
    if es.len() > 0 {
        let t1 = courses_step(t, es[0]);
        lemma_import_courses_covers(t1, es.drop_first());
        assert forall|j: int| 0 <= j < es.len() implies courses_entry_covered(
            import_courses(t, es),
            #[trigger] es[j],
        ) by {
            if j == 0 {
                match spec_parse_i64(es[0].0@) {
                    Some(uid) => match es[0].1 {
                        Some(json) => match spec_json_parse(json@) {
                            Some(JsonVal::Obj(pairs)) => {
                                lemma_user_courses_covers(t, uid, pairs@);
                                assert forall|k: int| 0 <= k < pairs@.len() implies
                                    has_course_model(
                                    import_courses(t, es),
                                    uid,
                                    (#[trigger] pairs@[k]).0@,
                                ) by {
                                    lemma_courses_mono(t1, es.drop_first(), uid, pairs@[k].0@);
                                }
                            },
                            _ => {},
                        },
                        None => {},
                    },
                    None => {},
                }
            } else {
                assert(es.drop_first()[j - 1] == es[j]);
            }
        }
    }
}

proof fn lemma_import_courses_noop(t: Seq<CourseRowModel>, es: Seq<(String, Option<String>)>)
    requires
        forall|j: int| 0 <= j < es.len() ==> courses_entry_covered(t, #[trigger] es[j]),
    ensures
        import_courses(t, es) == t,
    decreases es.len(),
{
    if es.len() > 0 {
        match spec_parse_i64(es[0].0@) {
            Some(uid) => match es[0].1 {
                Some(json) => match spec_json_parse(json@) {
                    Some(JsonVal::Obj(pairs)) => {
                        lemma_user_courses_noop(t, uid, pairs@);
                    },
                    _ => {},
                },
                None => {},
            },
            None => {},
        }
        assert(courses_step(t, es[0]) == t);
        assert forall|j: int| 0 <= j < es.drop_first().len() implies courses_entry_covered(
            t,
            #[trigger] es.drop_first()[j],
        ) by {
            assert(es.drop_first()[j] == es[j + 1]);
        }
        lemma_import_courses_noop(t, es.drop_first());
    }
}

proof fn lemma_import_courses_idem(t: Seq<CourseRowModel>, es: Seq<(String, Option<String>)>)
    ensures
        import_courses(import_courses(t, es), es) == import_courses(t, es),
{
    lemma_import_courses_covers(t, es);
    lemma_import_courses_noop(import_courses(t, es), es);
}

/// Whether a snippet table already holds every row this entry would add.
pub open spec fn snippets_entry_covered(t: Seq<SnippetRowModel>, e: (String, Option<String>)) -> bool {
    match spec_parse_i64(e.0@) {
        Some(uid) => match e.1 {
            Some(json) => match spec_json_parse(json@) {
                Some(JsonVal::Arr(items)) => forall|k: int|
                    0 <= k < items@.len() ==> has_snippet_model(
                        t,
                        snippet_model_from_json(uid, #[trigger] items@[k]).id,
                    ),
                _ => true,
            },
            None => true,
        },
        None => true,
    }
}

proof fn lemma_user_snippets_mono(
    t: Seq<SnippetRowModel>,
    uid: i64,
    items: Seq<JsonVal>,
    id: Seq<char>,
)
    requires
        has_snippet_model(t, id),
    ensures
        has_snippet_model(import_user_snippets(t, uid, items), id),
    decreases items.len(),
{
    if items.len() > 0 {
        let t1 = snippet_item_step(t, uid, items[0]);
        let w = choose|w: int| 0 <= w < t.len() && t[w].id == id;
        assert(t1[w].id == id);
        lemma_user_snippets_mono(t1, uid, items.drop_first(), id);
    }
}

proof fn lemma_user_snippets_covers(t: Seq<SnippetRowModel>, uid: i64, items: Seq<JsonVal>)
    ensures
        forall|k: int| 0 <= k < items.len() ==> has_snippet_model(
            import_user_snippets(t, uid, items),
            snippet_model_from_json(uid, #[trigger] items[k]).id,
        ),
    decreases items.len(),
{
    if items.len() > 0 {
        let t1 = snippet_item_step(t, uid, items[0]);
        lemma_user_snippets_covers(t1, uid, items.drop_first());
        assert forall|k: int| 0 <= k < items.len() implies has_snippet_model(
            import_user_snippets(t, uid, items),
            snippet_model_from_json(uid, #[trigger] items[k]).id,
        ) by {
            if k == 0 {
                let m = snippet_model_from_json(uid, items[0]);
                if !has_snippet_model(t, m.id) {
                    assert(t1[t.len() as int].id == m.id);
                }
                assert(has_snippet_model(t1, m.id));
                lemma_user_snippets_mono(t1, uid, items.drop_first(), m.id);
            } else {
                assert(items.drop_first()[k - 1] == items[k]);
            }
        }
    }
}

proof fn lemma_user_snippets_noop(t: Seq<SnippetRowModel>, uid: i64, items: Seq<JsonVal>)
    requires
        forall|k: int| 0 <= k < items.len() ==> has_snippet_model(
            t,
            snippet_model_from_json(uid, #[trigger] items[k]).id,
        ),
    ensures
        import_user_snippets(t, uid, items) == t,
    decreases items.len(),
{
    if items.len() > 0 {
        assert(snippet_item_step(t, uid, items[0]) == t);
        assert forall|k: int| 0 <= k < items.drop_first().len() implies has_snippet_model(
            t,
            snippet_model_from_json(uid, #[trigger] items.drop_first()[k]).id,
        ) by {
            assert(items.drop_first()[k] == items[k + 1]);
        }
        lemma_user_snippets_noop(t, uid, items.drop_first());
    }
}

proof fn lemma_snippets_mono(t: Seq<SnippetRowModel>, es: Seq<(String, Option<String>)>, id: Seq<char>)
    requires
        has_snippet_model(t, id),
    ensures
        has_snippet_model(import_snippets(t, es), id),
    decreases es.len(),
{
    if es.len() > 0 {
        let t1 = snippets_step(t, es[0]);
        match spec_parse_i64(es[0].0@) {
            Some(uid) => match es[0].1 {
                Some(json) => match spec_json_parse(json@) {
                    Some(JsonVal::Arr(items)) => {
                        lemma_user_snippets_mono(t, uid, items@, id);
                    },
                    _ => {},
                },
                None => {},
            },
            None => {},
        }
        lemma_snippets_mono(t1, es.drop_first(), id);
    }
}

proof fn lemma_import_snippets_covers(t: Seq<SnippetRowModel>, es: Seq<(String, Option<String>)>)
    ensures
        forall|j: int| 0 <= j < es.len() ==> snippets_entry_covered(
            import_snippets(t, es),
            #[trigger] es[j],
        ),
    decreases es.len(),
{
    if es.len() > 0 {
        let t1 = snippets_step(t, es[0]);
        lemma_import_snippets_covers(t1, es.drop_first());
        assert forall|j: int| 0 <= j < es.len() implies snippets_entry_covered(
            import_snippets(t, es),
            #[trigger] es[j],
        ) by {
            if j == 0 {
                match spec_parse_i64(es[0].0@) {
                    Some(uid) => match es[0].1 {
                        Some(json) => match spec_json_parse(json@) {
                            Some(JsonVal::Arr(items)) => {
                                lemma_user_snippets_covers(t, uid, items@);
                                assert forall|k: int| 0 <= k < items@.len() implies
                                    has_snippet_model(
                                    import_snippets(t, es),
                                    snippet_model_from_json(uid, #[trigger] items@[k]).id,
                                ) by {
                                    lemma_snippets_mono(
                                        t1,
                                        es.drop_first(),
                                        snippet_model_from_json(uid, items@[k]).id,
                                    );
                                }
                            },
                            _ => {},
                        },
                        None => {},
                    },
                    None => {},
                }
            } else {
                assert(es.drop_first()[j - 1] == es[j]);
            }
        }
    }
}

proof fn lemma_import_snippets_noop(t: Seq<SnippetRowModel>, es: Seq<(String, Option<String>)>)
    requires
        forall|j: int| 0 <= j < es.len() ==> snippets_entry_covered(t, #[trigger] es[j]),
    ensures
        import_snippets(t, es) == t,
    decreases es.len(),
{
    if es.len() > 0 {
        match spec_parse_i64(es[0].0@) {
            Some(uid) => match es[0].1 {
                Some(json) => match spec_json_parse(json@) {
                    Some(JsonVal::Arr(items)) => {
                        lemma_user_snippets_noop(t, uid, items@);
                    },
                    _ => {},
                },
                None => {},
            },
            None => {},
        }
        assert(snippets_step(t, es[0]) == t);
        assert forall|j: int| 0 <= j < es.drop_first().len() implies snippets_entry_covered(
            t,
            #[trigger] es.drop_first()[j],
        ) by {
            assert(es.drop_first()[j] == es[j + 1]);
        }
        lemma_import_snippets_noop(t, es.drop_first());
    }
}

proof fn lemma_import_snippets_idem(t: Seq<SnippetRowModel>, es: Seq<(String, Option<String>)>)
    ensures
        import_snippets(import_snippets(t, es), es) == import_snippets(t, es),
{
    lemma_import_snippets_covers(t, es);
    lemma_import_snippets_noop(import_snippets(t, es), es);
}

/// Whether an activity table already holds every row this entry would add.
pub open spec fn activity_entry_covered(t: Seq<ActivityEntry>, e: (String, Option<String>)) -> bool {
    match spec_parse_i64(e.0@) {
        Some(uid) => match e.1 {
            Some(json) => match spec_json_parse(json@) {
                Some(JsonVal::Obj(pairs)) => forall|k: int|
                    0 <= k < pairs@.len() ==> has_activity(t, uid, (#[trigger] pairs@[k]).0@),
                _ => true,
            },
            None => true,
        },
        None => true,
    }
}

proof fn lemma_user_activity_mono(
    t: Seq<ActivityEntry>,
    uid: i64,
    pairs: Seq<(String, JsonVal)>,
    uid2: i64,
    date: Seq<char>,
)
    requires
        has_activity(t, uid2, date),
    ensures
        has_activity(import_user_activity(t, uid, pairs), uid2, date),
    decreases pairs.len(),
{
    if pairs.len() > 0 {
        let t1 = activity_pair_step(t, uid, pairs[0]);
        let w = choose|w: int| 0 <= w < t.len() && t[w].user_id == uid2 && t[w].row.date@ == date;
        assert(t1[w].user_id == uid2 && t1[w].row.date@ == date);
        lemma_user_activity_mono(t1, uid, pairs.drop_first(), uid2, date);
    }
}

proof fn lemma_user_activity_covers(t: Seq<ActivityEntry>, uid: i64, pairs: Seq<(String, JsonVal)>)
    ensures
        forall|k: int| 0 <= k < pairs.len() ==> has_activity(
            import_user_activity(t, uid, pairs),
            uid,
            (#[trigger] pairs[k]).0@,
        ),
    decreases pairs.len(),
{
    if pairs.len() > 0 {
        let t1 = activity_pair_step(t, uid, pairs[0]);
        lemma_user_activity_covers(t1, uid, pairs.drop_first());
        assert forall|k: int| 0 <= k < pairs.len() implies has_activity(
            import_user_activity(t, uid, pairs),
            uid,
            (#[trigger] pairs[k]).0@,
        ) by {
            if k == 0 {
                if !has_activity(t, uid, pairs[0].0@) {
                    assert(t1[t.len() as int].user_id == uid && t1[t.len() as int].row.date@
                        == pairs[0].0@);
                }
                assert(has_activity(t1, uid, pairs[0].0@));
                lemma_user_activity_mono(t1, uid, pairs.drop_first(), uid, pairs[0].0@);
            } else {
                assert(pairs.drop_first()[k - 1] == pairs[k]);
            }
        }
    }
}

proof fn lemma_user_activity_noop(t: Seq<ActivityEntry>, uid: i64, pairs: Seq<(String, JsonVal)>)
    requires
        forall|k: int| 0 <= k < pairs.len() ==> has_activity(t, uid, (#[trigger] pairs[k]).0@),
    ensures
        import_user_activity(t, uid, pairs) == t,
    decreases pairs.len(),
{
    if pairs.len() > 0 {
        assert(activity_pair_step(t, uid, pairs[0]) == t);
        assert forall|k: int| 0 <= k < pairs.drop_first().len() implies has_activity(
            t,
            uid,
            (#[trigger] pairs.drop_first()[k]).0@,
        ) by {
            assert(pairs.drop_first()[k] == pairs[k + 1]);
        }
        lemma_user_activity_noop(t, uid, pairs.drop_first());
    }
}

proof fn lemma_activity_mono(
    t: Seq<ActivityEntry>,
    es: Seq<(String, Option<String>)>,
    uid2: i64,
    date: Seq<char>,
)
    requires
        has_activity(t, uid2, date),
    ensures
        has_activity(import_activity(t, es), uid2, date),
    decreases es.len(),
{
    if es.len() > 0 {
        let t1 = activity_step(t, es[0]);
        match spec_parse_i64(es[0].0@) {
            Some(uid) => match es[0].1 {
                Some(json) => match spec_json_parse(json@) {
                    Some(JsonVal::Obj(pairs)) => {
                        lemma_user_activity_mono(t, uid, pairs@, uid2, date);
                    },
                    _ => {},
                },
                None => {},
            },
            None => {},
        }
        lemma_activity_mono(t1, es.drop_first(), uid2, date);
    }
}

proof fn lemma_import_activity_covers(t: Seq<ActivityEntry>, es: Seq<(String, Option<String>)>)
    ensures
        forall|j: int| 0 <= j < es.len() ==> activity_entry_covered(
            import_activity(t, es),
            #[trigger] es[j],
        ),
    decreases es.len(),
{
    if es.len() > 0 {
        let t1 = activity_step(t, es[0]);
        lemma_import_activity_covers(t1, es.drop_first());
        assert forall|j: int| 0 <= j < es.len() implies activity_entry_covered(
            import_activity(t, es),
            #[trigger] es[j],
        ) by {
            if j == 0 {
                match spec_parse_i64(es[0].0@) {
                    Some(uid) => match es[0].1 {
                        Some(json) => match spec_json_parse(json@) {
                            Some(JsonVal::Obj(pairs)) => {
                                lemma_user_activity_covers(t, uid, pairs@);
                                assert forall|k: int| 0 <= k < pairs@.len() implies has_activity(
                                    import_activity(t, es),
                                    uid,
                                    (#[trigger] pairs@[k]).0@,
                                ) by {
                                    lemma_activity_mono(t1, es.drop_first(), uid, pairs@[k].0@);
                                }
                            },
                            _ => {},
                        },
                        None => {},
                    },
                    None => {},
                }
            } else {
                assert(es.drop_first()[j - 1] == es[j]);
            }
        }
    }
}

proof fn lemma_import_activity_noop(t: Seq<ActivityEntry>, es: Seq<(String, Option<String>)>)
    requires
        forall|j: int| 0 <= j < es.len() ==> activity_entry_covered(t, #[trigger] es[j]),
    ensures
        import_activity(t, es) == t,
    decreases es.len(),
{
    if es.len() > 0 {
        match spec_parse_i64(es[0].0@) {
            Some(uid) => match es[0].1 {
                Some(json) => match spec_json_parse(json@) {
                    Some(JsonVal::Obj(pairs)) => {
                        lemma_user_activity_noop(t, uid, pairs@);
                    },
                    _ => {},
                },
                None => {},
            },
            None => {},
        }
        assert(activity_step(t, es[0]) == t);
        assert forall|j: int| 0 <= j < es.drop_first().len() implies activity_entry_covered(
            t,
            #[trigger] es.drop_first()[j],
        ) by {
            assert(es.drop_first()[j] == es[j + 1]);
        }
        lemma_import_activity_noop(t, es.drop_first());
    }
}

proof fn lemma_import_activity_idem(t: Seq<ActivityEntry>, es: Seq<(String, Option<String>)>)
    ensures
        import_activity(import_activity(t, es), es) == import_activity(t, es),
{
    lemma_import_activity_covers(t, es);
    lemma_import_activity_noop(import_activity(t, es), es);
}

/// Idempotent migration: with `db` the store before a first import of
/// payload `p` and `db2` any store whose users table is the first run's
/// (as `migrate_from_localstorage` ensures), a second run of every
/// per-table import yields exactly the first run's result, and the second
/// run is admissible exactly when the first was. Insert-if-absent holds
/// for every entity kind.
pub proof fn lemma_migration_idempotent(db: Database, db2: Database, p: MigrationPayload)
    requires
        db2.users@ == import_users(db.users@, p.users@),
    ensures
        import_ok(db2, p) <==> import_ok(db, p),
        import_users(import_users(db.users@, p.users@), p.users@) == import_users(
            db.users@,
            p.users@,
        ),
        import_settings(import_settings(db.settings@, p.settings@), p.settings@)
            == import_settings(db.settings@, p.settings@),
        import_stats(
            import_stats((StatsTables { stats: db.user_stats@, pkeys: db.problem_keys@ }), p.stats@),
            p.stats@,
        ) == import_stats(
            (StatsTables { stats: db.user_stats@, pkeys: db.problem_keys@ }),
            p.stats@,
        ),
        import_lessons(
            import_lessons(lesson_models(db.lesson_progress@), p.progress@),
            p.progress@,
        ) == import_lessons(lesson_models(db.lesson_progress@), p.progress@),
        import_courses(import_courses(course_models(db.course_progress@), p.courses@), p.courses@)
            == import_courses(course_models(db.course_progress@), p.courses@),
        import_snippets(
            import_snippets(snippet_models(db.custom_snippets@), p.snippets@),
            p.snippets@,
        ) == import_snippets(snippet_models(db.custom_snippets@), p.snippets@),
        import_activity(import_activity(db.daily_activity@, p.activity@), p.activity@)
            == import_activity(db.daily_activity@, p.activity@),
        import_daily(import_daily(db.daily_results@, p.daily_results@), p.daily_results@)
            == import_daily(db.daily_results@, p.daily_results@),
{
    lemma_import_users_idem(db.users@, p.users@);
    lemma_import_settings_idem(db.settings@, p.settings@);
    lemma_import_stats_idem(
        StatsTables { stats: db.user_stats@, pkeys: db.problem_keys@ },
        p.stats@,
    );
    lemma_import_lessons_idem(lesson_models(db.lesson_progress@), p.progress@);
    lemma_import_courses_idem(course_models(db.course_progress@), p.courses@);
    lemma_import_snippets_idem(snippet_models(db.custom_snippets@), p.snippets@);
    lemma_import_activity_idem(db.daily_activity@, p.activity@);
    lemma_import_daily_idem(db.daily_results@, p.daily_results@);
    assert(import_users(db2.users@, p.users@) == import_users(db.users@, p.users@));
}

impl Database {
    /// One-time ingestion of a legacy payload, inside one atomic unit: every
    /// write is insert-if-absent, unreadable keys and malformed blobs are
    /// skipped per entry, and a child row for a user that would not exist
    /// fails the whole import with the store untouched.
    pub fn migrate_from_localstorage(&mut self, payload: &MigrationPayload) -> (r: Result<
        (),
        StorageError,
    >)
        requires
            old(self).wf(),
        ensures
            final(self).wf(),
            crate::storage::same_versions(*old(self), *final(self)),
            match r {
                Ok(()) => {
                    &&& import_ok(*old(self), *payload)
                    &&& final(self).users@ == import_users(old(self).users@, payload.users@)
                    &&& final(self).settings@ == import_settings(
                        old(self).settings@,
                        payload.settings@,
                    )
                    &&& (StatsTables {
                        stats: final(self).user_stats@,
                        pkeys: final(self).problem_keys@,
                    }) == import_stats(
                        (StatsTables {
                            stats: old(self).user_stats@,
                            pkeys: old(self).problem_keys@,
                        }),
                        payload.stats@,
                    )
                    &&& lesson_models(final(self).lesson_progress@) == import_lessons(
                        lesson_models(old(self).lesson_progress@),
                        payload.progress@,
                    )
                    &&& course_models(final(self).course_progress@) == import_courses(
                        course_models(old(self).course_progress@),
                        payload.courses@,
                    )
                    &&& snippet_models(final(self).custom_snippets@) == import_snippets(
                        snippet_models(old(self).custom_snippets@),
                        payload.snippets@,
                    )
                    &&& final(self).daily_activity@ == import_activity(
                        old(self).daily_activity@,
                        payload.activity@,
                    )
                    &&& final(self).daily_results@ == import_daily(
                        old(self).daily_results@,
                        payload.daily_results@,
                    )
                },
                Err(e) => {
                    &&& e == crate::StorageError::ConstraintViolation
                    &&& !import_ok(*old(self), *payload)
                    &&& *final(self) == *old(self)
                },
            },
    {
        if !check_import(self, payload) {
            return Err(crate::StorageError::ConstraintViolation);
        }
        apply_users(&mut self.users, &payload.users);
        proof {
            assert forall|j: int| 0 <= j < self.settings@.len() implies has_user_id(
                self.users@,
                self.settings@[j].user_id,
            ) by {
                assert(has_user_id(old(self).users@, self.settings@[j].user_id));
            }
            assert forall|j: int| 0 <= j < self.user_stats@.len() implies has_user_id(
                self.users@,
                self.user_stats@[j].user_id,
            ) by {
                assert(has_user_id(old(self).users@, self.user_stats@[j].user_id));
            }
            assert forall|j: int| 0 <= j < self.problem_keys@.len() implies has_user_id(
                self.users@,
                self.problem_keys@[j].user_id,
            ) by {
                assert(has_user_id(old(self).users@, self.problem_keys@[j].user_id));
            }
            assert forall|j: int| 0 <= j < self.lesson_progress@.len() implies has_user_id(
                self.users@,
                self.lesson_progress@[j].user_id,
            ) by {
                assert(has_user_id(old(self).users@, self.lesson_progress@[j].user_id));
            }
            assert forall|j: int| 0 <= j < self.course_progress@.len() implies has_user_id(
                self.users@,
                self.course_progress@[j].user_id,
            ) by {
                assert(has_user_id(old(self).users@, self.course_progress@[j].user_id));
            }
            assert forall|j: int| 0 <= j < self.custom_snippets@.len() implies has_user_id(
                self.users@,
                self.custom_snippets@[j].user_id,
            ) by {
                assert(has_user_id(old(self).users@, self.custom_snippets@[j].user_id));
            }
            assert forall|j: int| 0 <= j < self.daily_results@.len() implies has_user_id(
                self.users@,
                self.daily_results@[j].user_id,
            ) by {
                assert(has_user_id(old(self).users@, self.daily_results@[j].user_id));
            }
            assert forall|j: int| 0 <= j < self.daily_activity@.len() implies has_user_id(
                self.users@,
                self.daily_activity@[j].user_id,
            ) by {
                assert(has_user_id(old(self).users@, self.daily_activity@[j].user_id));
            }
        }
        apply_settings(&mut self.settings, &self.users, &payload.settings);
        apply_stats(&mut self.user_stats, &mut self.problem_keys, &self.users, &payload.stats);
        apply_lessons(&mut self.lesson_progress, &self.users, &payload.progress);
        apply_courses(&mut self.course_progress, &self.users, &payload.courses);
        apply_snippets(&mut self.custom_snippets, &self.users, &payload.snippets);
        apply_activity(&mut self.daily_activity, &self.users, &payload.activity);
        apply_daily(&mut self.daily_results, &self.users, &payload.daily_results);
        Ok(())
    }
}

} // verus!
