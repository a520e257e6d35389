//! Row types stored by the database, mirroring the persisted schema.
//!
//! Timestamps and dates are opaque strings (or epoch milliseconds as `i64`);
//! the store never interprets their calendar meaning. Rate and accuracy
//! figures are stored verbatim as integer scalars and never computed on.

use vstd::prelude::*;

verus! {

/// The aggregate root. Every other entity is owned by exactly one user and
/// is removed when that user is deleted.
pub struct UserProfile {
    pub id: i64,
    pub name: String,
    pub avatar: String,
    pub created_at: String,
    pub last_active_at: Option<String>,
}

impl Clone for UserProfile {
    fn clone(&self) -> (res: Self)
        ensures
            res == *self,
    {
        UserProfile {
            id: self.id,
            name: self.name.clone(),
            avatar: self.avatar.clone(),
            created_at: self.created_at.clone(),
            last_active_at: self.last_active_at.clone(),
        }
    }
}

/// Aggregated practice statistics for one user, carried together with the
/// owned collection of per-key error counters.
pub struct UserStatsRow {
    pub total_practice_time: i64,
    pub total_words_typed: i64,
    pub average_wpm: i64,
    pub average_accuracy: i64,
    pub average_true_accuracy: i64,
    pub total_keystrokes: i64,
    pub total_backspaces: i64,
    pub total_correct_keystrokes: i64,
    pub lessons_completed: i64,
    pub current_streak: i64,
    pub longest_streak: i64,
    pub last_practice_date: Option<String>,
    pub problem_keys: Vec<(String, i64)>,
}

/// Progress of one user in one lesson; replaced wholesale on every save.
pub struct LessonProgressRow {
    pub lesson_id: String,
    pub completed_tasks: i64,
    pub total_tasks: i64,
    pub best_wpm: i64,
    pub average_accuracy: i64,
    pub last_task_index: Option<i64>,
    pub task_results_json: String,
}

impl Clone for LessonProgressRow {
    fn clone(&self) -> (res: Self)
        ensures
            res == *self,
    {
        LessonProgressRow {
            lesson_id: self.lesson_id.clone(),
            completed_tasks: self.completed_tasks,
            total_tasks: self.total_tasks,
            best_wpm: self.best_wpm,
            average_accuracy: self.average_accuracy,
            last_task_index: self.last_task_index,
            task_results_json: self.task_results_json.clone(),
        }
    }
}

/// Progress of one user in one course; replaced wholesale on every save.
pub struct CourseProgressRow {
    pub course_id: String,
    pub current_stage_id: Option<String>,
    pub completed_stages_json: String,
    pub skipped_stages_json: String,
    pub enrolled_at: String,
    pub completed_at: Option<String>,
}

impl Clone for CourseProgressRow {
    fn clone(&self) -> (res: Self)
        ensures
            res == *self,
    {
        CourseProgressRow {
            course_id: self.course_id.clone(),
            current_stage_id: self.current_stage_id.clone(),
            completed_stages_json: self.completed_stages_json.clone(),
            skipped_stages_json: self.skipped_stages_json.clone(),
            enrolled_at: self.enrolled_at.clone(),
            completed_at: self.completed_at.clone(),
        }
    }
}

/// A user-authored practice snippet. Keyed globally by its string `id`.
pub struct CustomSnippetRow {
    pub id: String,
    pub user_id: i64,
    pub name: String,
    pub content: String,
    pub language: Option<String>,
    pub mode: String,
    pub created_at: String,
    pub practice_count: i64,
    pub best_wpm: Option<i64>,
    pub best_accuracy: Option<i64>,
}

impl Clone for CustomSnippetRow {
    fn clone(&self) -> (res: Self)
        ensures
            res == *self,
    {
        CustomSnippetRow {
            id: self.id.clone(),
            user_id: self.user_id,
            name: self.name.clone(),
            content: self.content.clone(),
            language: self.language.clone(),
            mode: self.mode.clone(),
            created_at: self.created_at.clone(),
            practice_count: self.practice_count,
            best_wpm: self.best_wpm,
            best_accuracy: self.best_accuracy,
        }
    }
}

/// One daily typing-test outcome; unique per (user, date).
pub struct DailyTestResultRow {
    pub user_id: i64,
    pub date: String,
    pub wpm: i64,
    pub accuracy: i64,
    pub true_accuracy: i64,
    pub duration: i64,
    pub completed_at: i64,
}

impl Clone for DailyTestResultRow {
    fn clone(&self) -> (res: Self)
        ensures
            res == *self,
    {
        DailyTestResultRow {
            user_id: self.user_id,
            date: self.date.clone(),
            wpm: self.wpm,
            accuracy: self.accuracy,
            true_accuracy: self.true_accuracy,
            duration: self.duration,
            completed_at: self.completed_at,
        }
    }
}

/// Practice activity totals for one user on one date.
pub struct DailyActivityRow {
    pub date: String,
    pub practice_time: i64,
    pub characters: i64,
    pub sessions: i64,
}

impl Clone for DailyActivityRow {
    fn clone(&self) -> (res: Self)
        ensures
            res == *self,
    {
        DailyActivityRow {
            date: self.date.clone(),
            practice_time: self.practice_time,
            characters: self.characters,
            sessions: self.sessions,
        }
    }
}

/// The flat legacy data set handed to the one-time importer: a list of user
/// records, six per-user mappings from a user id written as a string to an
/// optional opaque JSON blob, and a flat list of daily test results.
pub struct MigrationPayload {
    pub users: Vec<UserProfile>,
    pub settings: Vec<(String, Option<String>)>,
    pub stats: Vec<(String, Option<String>)>,
    pub progress: Vec<(String, Option<String>)>,
    pub courses: Vec<(String, Option<String>)>,
    pub snippets: Vec<(String, Option<String>)>,
    pub activity: Vec<(String, Option<String>)>,
    pub daily_results: Vec<DailyTestResultRow>,
}

} // verus!
