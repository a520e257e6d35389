//! The in-memory relational store: one `Database` value holds every table,
//! the schema-version ledger, and the well-formedness invariant (unique keys
//! per table, and every child row owned by an existing user).

use vstd::prelude::*;

use crate::models::CourseProgressRow;
use crate::models::CustomSnippetRow;
use crate::models::DailyActivityRow;
use crate::models::DailyTestResultRow;
use crate::models::LessonProgressRow;
use crate::models::UserProfile;
use crate::StorageError;

verus! {

/// One settings row: at most one per user, holding an opaque JSON blob.
pub struct SettingsEntry {
    pub user_id: i64,
    pub settings_json: String,
}

/// One stats row: at most one per user. The owned problem-key counters live
/// in their own table, keyed by (user, key character).
pub struct UserStatsEntry {
    pub user_id: i64,
    pub total_practice_time: i64,
    pub total_words_typed: i64,
    pub average_wpm: i64,
    pub average_accuracy: i64,
    pub average_true_accuracy: i64,
    pub total_keystrokes: i64,
    pub total_backspaces: i64,
    pub total_correct_keystrokes: i64,
    pub lessons_completed: i64,
    pub current_streak: i64,
    pub longest_streak: i64,
    pub last_practice_date: Option<String>,
}

/// One per-key error counter, unique per (user, key character).
pub struct ProblemKeyEntry {
    pub user_id: i64,
    pub key_char: String,
    pub error_count: i64,
}

/// One lesson-progress row, unique per (user, lesson).
pub struct LessonEntry {
    pub user_id: i64,
    pub row: LessonProgressRow,
}

/// One course-progress row, unique per (user, course).
pub struct CourseEntry {
    pub user_id: i64,
    pub row: CourseProgressRow,
}

/// One daily-activity row, unique per (user, date).
pub struct ActivityEntry {
    pub user_id: i64,
    pub row: DailyActivityRow,
}

impl Clone for SettingsEntry {
    fn clone(&self) -> (res: Self)
        ensures
            res == *self,
    {
        SettingsEntry { user_id: self.user_id, settings_json: self.settings_json.clone() }
    }
}

impl Clone for UserStatsEntry {
    fn clone(&self) -> (res: Self)
        ensures
            res == *self,
    {
        UserStatsEntry {
            user_id: self.user_id,
            total_practice_time: self.total_practice_time,
            total_words_typed: self.total_words_typed,
            average_wpm: self.average_wpm,
            average_accuracy: self.average_accuracy,
            average_true_accuracy: self.average_true_accuracy,
            total_keystrokes: self.total_keystrokes,
            total_backspaces: self.total_backspaces,
            total_correct_keystrokes: self.total_correct_keystrokes,
            lessons_completed: self.lessons_completed,
            current_streak: self.current_streak,
            longest_streak: self.longest_streak,
            last_practice_date: self.last_practice_date.clone(),
        }
    }
}

impl Clone for ProblemKeyEntry {
    fn clone(&self) -> (res: Self)
        ensures
            res == *self,
    {
        ProblemKeyEntry {
            user_id: self.user_id,
            key_char: self.key_char.clone(),
            error_count: self.error_count,
        }
    }
}

impl Clone for LessonEntry {
    fn clone(&self) -> (res: Self)
        ensures
            res == *self,
    {
        LessonEntry { user_id: self.user_id, row: self.row.clone() }
    }
}

impl Clone for CourseEntry {
    fn clone(&self) -> (res: Self)
        ensures
            res == *self,
    {
        CourseEntry { user_id: self.user_id, row: self.row.clone() }
    }
}

impl Clone for ActivityEntry {
    fn clone(&self) -> (res: Self)
        ensures
            res == *self,
    {
        ActivityEntry { user_id: self.user_id, row: self.row.clone() }
    }
}

/// The whole store. All tables live behind one handle; every operation is
/// synchronous and leaves the well-formedness invariant intact.
pub struct Database {
    pub schema_versions: Vec<i64>,
    pub users: Vec<UserProfile>,
    pub settings: Vec<SettingsEntry>,
    pub user_stats: Vec<UserStatsEntry>,
    pub problem_keys: Vec<ProblemKeyEntry>,
    pub lesson_progress: Vec<LessonEntry>,
    pub course_progress: Vec<CourseEntry>,
    pub custom_snippets: Vec<CustomSnippetRow>,
    pub daily_results: Vec<DailyTestResultRow>,
    pub daily_activity: Vec<ActivityEntry>,
}

// ── Spec: key uniqueness, membership, foreign keys, filtering ──────────

pub open spec fn users_unique(s: Seq<UserProfile>) -> bool {
    forall|i: int, j: int| 0 <= i < j < s.len() ==> s[i].id != s[j].id
}

pub open spec fn has_user_id(s: Seq<UserProfile>, id: i64) -> bool {
    exists|i: int| 0 <= i < s.len() && s[i].id == id
}

pub open spec fn users_without(s: Seq<UserProfile>, id: i64) -> Seq<UserProfile> {
    s.filter(|u: UserProfile| u.id != id)
}

pub open spec fn settings_unique(s: Seq<SettingsEntry>) -> bool {
    forall|i: int, j: int| 0 <= i < j < s.len() ==> s[i].user_id != s[j].user_id
}

pub open spec fn has_settings(s: Seq<SettingsEntry>, uid: i64) -> bool {
    exists|i: int| 0 <= i < s.len() && s[i].user_id == uid
}

pub open spec fn settings_fk(s: Seq<SettingsEntry>, users: Seq<UserProfile>) -> bool {
    forall|i: int| 0 <= i < s.len() ==> has_user_id(users, s[i].user_id)
}

pub open spec fn settings_without(s: Seq<SettingsEntry>, uid: i64) -> Seq<SettingsEntry> {
    s.filter(|e: SettingsEntry| e.user_id != uid)
}

pub open spec fn stats_unique(s: Seq<UserStatsEntry>) -> bool {
    forall|i: int, j: int| 0 <= i < j < s.len() ==> s[i].user_id != s[j].user_id
}

pub open spec fn has_stats(s: Seq<UserStatsEntry>, uid: i64) -> bool {
    exists|i: int| 0 <= i < s.len() && s[i].user_id == uid
}

pub open spec fn stats_fk(s: Seq<UserStatsEntry>, users: Seq<UserProfile>) -> bool {
    forall|i: int| 0 <= i < s.len() ==> has_user_id(users, s[i].user_id)
}

pub open spec fn stats_without(s: Seq<UserStatsEntry>, uid: i64) -> Seq<UserStatsEntry> {
    s.filter(|e: UserStatsEntry| e.user_id != uid)
}

pub open spec fn pkeys_unique(s: Seq<ProblemKeyEntry>) -> bool {
    forall|i: int, j: int|
        0 <= i < j < s.len() ==> !(s[i].user_id == s[j].user_id && s[i].key_char@ == s[j].key_char@)
}

pub open spec fn has_pkey(s: Seq<ProblemKeyEntry>, uid: i64, key: Seq<char>) -> bool {
    exists|i: int| 0 <= i < s.len() && s[i].user_id == uid && s[i].key_char@ == key
}

pub open spec fn pkeys_fk(s: Seq<ProblemKeyEntry>, users: Seq<UserProfile>) -> bool {
    forall|i: int| 0 <= i < s.len() ==> has_user_id(users, s[i].user_id)
}

pub open spec fn pkeys_without(s: Seq<ProblemKeyEntry>, uid: i64) -> Seq<ProblemKeyEntry> {
    s.filter(|e: ProblemKeyEntry| e.user_id != uid)
}

pub open spec fn lessons_unique(s: Seq<LessonEntry>) -> bool {
    forall|i: int, j: int|
        0 <= i < j < s.len()
            ==> !(s[i].user_id == s[j].user_id && s[i].row.lesson_id@ == s[j].row.lesson_id@)
}

pub open spec fn has_lesson(s: Seq<LessonEntry>, uid: i64, lesson: Seq<char>) -> bool {
    exists|i: int| 0 <= i < s.len() && s[i].user_id == uid && s[i].row.lesson_id@ == lesson
}

pub open spec fn lessons_fk(s: Seq<LessonEntry>, users: Seq<UserProfile>) -> bool {
    forall|i: int| 0 <= i < s.len() ==> has_user_id(users, s[i].user_id)
}

pub open spec fn lessons_without(s: Seq<LessonEntry>, uid: i64) -> Seq<LessonEntry> {
    s.filter(|e: LessonEntry| e.user_id != uid)
}

pub open spec fn courses_unique(s: Seq<CourseEntry>) -> bool {
    forall|i: int, j: int|
        0 <= i < j < s.len()
            ==> !(s[i].user_id == s[j].user_id && s[i].row.course_id@ == s[j].row.course_id@)
}

pub open spec fn has_course(s: Seq<CourseEntry>, uid: i64, course: Seq<char>) -> bool {
    exists|i: int| 0 <= i < s.len() && s[i].user_id == uid && s[i].row.course_id@ == course
}

pub open spec fn courses_fk(s: Seq<CourseEntry>, users: Seq<UserProfile>) -> bool {
    forall|i: int| 0 <= i < s.len() ==> has_user_id(users, s[i].user_id)
}

pub open spec fn courses_without(s: Seq<CourseEntry>, uid: i64) -> Seq<CourseEntry> {
    s.filter(|e: CourseEntry| e.user_id != uid)
}

pub open spec fn snippets_unique(s: Seq<CustomSnippetRow>) -> bool {
    forall|i: int, j: int| 0 <= i < j < s.len() ==> s[i].id@ != s[j].id@
}

pub open spec fn has_snippet(s: Seq<CustomSnippetRow>, id: Seq<char>) -> bool {
    exists|i: int| 0 <= i < s.len() && s[i].id@ == id
}

pub open spec fn snippets_fk(s: Seq<CustomSnippetRow>, users: Seq<UserProfile>) -> bool {
    forall|i: int| 0 <= i < s.len() ==> has_user_id(users, s[i].user_id)
}

pub open spec fn snippets_without(s: Seq<CustomSnippetRow>, uid: i64) -> Seq<CustomSnippetRow> {
    s.filter(|e: CustomSnippetRow| e.user_id != uid)
}

pub open spec fn daily_unique(s: Seq<DailyTestResultRow>) -> bool {
    forall|i: int, j: int|
        0 <= i < j < s.len() ==> !(s[i].user_id == s[j].user_id && s[i].date@ == s[j].date@)
}

pub open spec fn has_daily(s: Seq<DailyTestResultRow>, uid: i64, date: Seq<char>) -> bool {
    exists|i: int| 0 <= i < s.len() && s[i].user_id == uid && s[i].date@ == date
}

pub open spec fn daily_fk(s: Seq<DailyTestResultRow>, users: Seq<UserProfile>) -> bool {
    forall|i: int| 0 <= i < s.len() ==> has_user_id(users, s[i].user_id)
}

pub open spec fn daily_without(s: Seq<DailyTestResultRow>, uid: i64) -> Seq<DailyTestResultRow> {
    s.filter(|e: DailyTestResultRow| e.user_id != uid)
}

pub open spec fn activity_unique(s: Seq<ActivityEntry>) -> bool {
    forall|i: int, j: int|
        0 <= i < j < s.len()
            ==> !(s[i].user_id == s[j].user_id && s[i].row.date@ == s[j].row.date@)
}

pub open spec fn has_activity(s: Seq<ActivityEntry>, uid: i64, date: Seq<char>) -> bool {
    exists|i: int| 0 <= i < s.len() && s[i].user_id == uid && s[i].row.date@ == date
}

pub open spec fn activity_fk(s: Seq<ActivityEntry>, users: Seq<UserProfile>) -> bool {
    forall|i: int| 0 <= i < s.len() ==> has_user_id(users, s[i].user_id)
}

pub open spec fn activity_without(s: Seq<ActivityEntry>, uid: i64) -> Seq<ActivityEntry> {
    s.filter(|e: ActivityEntry| e.user_id != uid)
}

// ── Spec: frame conditions (which tables an operation leaves alone) ────

pub open spec fn same_versions(a: Database, b: Database) -> bool {
    a.schema_versions == b.schema_versions
}

pub open spec fn same_users(a: Database, b: Database) -> bool {
    a.users == b.users
}

pub open spec fn same_settings(a: Database, b: Database) -> bool {
    a.settings == b.settings
}

pub open spec fn same_stats(a: Database, b: Database) -> bool {
    a.user_stats == b.user_stats
}

pub open spec fn same_problem_keys(a: Database, b: Database) -> bool {
    a.problem_keys == b.problem_keys
}

pub open spec fn same_lessons(a: Database, b: Database) -> bool {
    a.lesson_progress == b.lesson_progress
}

pub open spec fn same_courses(a: Database, b: Database) -> bool {
    a.course_progress == b.course_progress
}

pub open spec fn same_snippets(a: Database, b: Database) -> bool {
    a.custom_snippets == b.custom_snippets
}

pub open spec fn same_daily(a: Database, b: Database) -> bool {
    a.daily_results == b.daily_results
}

pub open spec fn same_activity(a: Database, b: Database) -> bool {
    a.daily_activity == b.daily_activity
}

/// Everything except the users table is untouched.
pub open spec fn same_except_users(a: Database, b: Database) -> bool {
    &&& same_versions(a, b)
    &&& same_settings(a, b)
    &&& same_stats(a, b)
    &&& same_problem_keys(a, b)
    &&& same_lessons(a, b)
    &&& same_courses(a, b)
    &&& same_snippets(a, b)
    &&& same_daily(a, b)
    &&& same_activity(a, b)
}

/// Everything except the settings table is untouched.
pub open spec fn same_except_settings(a: Database, b: Database) -> bool {
    &&& same_versions(a, b)
    &&& same_users(a, b)
    &&& same_stats(a, b)
    &&& same_problem_keys(a, b)
    &&& same_lessons(a, b)
    &&& same_courses(a, b)
    &&& same_snippets(a, b)
    &&& same_daily(a, b)
    &&& same_activity(a, b)
}

/// Everything except the stats and problem-key tables is untouched.
pub open spec fn same_except_stats(a: Database, b: Database) -> bool {
    &&& same_versions(a, b)
    &&& same_users(a, b)
    &&& same_settings(a, b)
    &&& same_lessons(a, b)
    &&& same_courses(a, b)
    &&& same_snippets(a, b)
    &&& same_daily(a, b)
    &&& same_activity(a, b)
}

/// Everything except the lesson-progress table is untouched.
pub open spec fn same_except_lessons(a: Database, b: Database) -> bool {
    &&& same_versions(a, b)
    &&& same_users(a, b)
    &&& same_settings(a, b)
    &&& same_stats(a, b)
    &&& same_problem_keys(a, b)
    &&& same_courses(a, b)
    &&& same_snippets(a, b)
    &&& same_daily(a, b)
    &&& same_activity(a, b)
}

/// Everything except the course-progress table is untouched.
pub open spec fn same_except_courses(a: Database, b: Database) -> bool {
    &&& same_versions(a, b)
    &&& same_users(a, b)
    &&& same_settings(a, b)
    &&& same_stats(a, b)
    &&& same_problem_keys(a, b)
    &&& same_lessons(a, b)
    &&& same_snippets(a, b)
    &&& same_daily(a, b)
    &&& same_activity(a, b)
}

/// Everything except the snippets table is untouched.
pub open spec fn same_except_snippets(a: Database, b: Database) -> bool {
    &&& same_versions(a, b)
    &&& same_users(a, b)
    &&& same_settings(a, b)
    &&& same_stats(a, b)
    &&& same_problem_keys(a, b)
    &&& same_lessons(a, b)
    &&& same_courses(a, b)
    &&& same_daily(a, b)
    &&& same_activity(a, b)
}

/// Everything except the daily-test-results table is untouched.
pub open spec fn same_except_daily(a: Database, b: Database) -> bool {
    &&& same_versions(a, b)
    &&& same_users(a, b)
    &&& same_settings(a, b)
    &&& same_stats(a, b)
    &&& same_problem_keys(a, b)
    &&& same_lessons(a, b)
    &&& same_courses(a, b)
    &&& same_snippets(a, b)
    &&& same_activity(a, b)
}

/// Everything except the daily-activity table is untouched.
pub open spec fn same_except_activity(a: Database, b: Database) -> bool {
    &&& same_versions(a, b)
    &&& same_users(a, b)
    &&& same_settings(a, b)
    &&& same_stats(a, b)
    &&& same_problem_keys(a, b)
    &&& same_lessons(a, b)
    &&& same_courses(a, b)
    &&& same_snippets(a, b)
    &&& same_daily(a, b)
}

/// Everything except the schema-version ledger is untouched.
pub open spec fn same_except_versions(a: Database, b: Database) -> bool {
    &&& same_users(a, b)
    &&& same_settings(a, b)
    &&& same_stats(a, b)
    &&& same_problem_keys(a, b)
    &&& same_lessons(a, b)
    &&& same_courses(a, b)
    &&& same_snippets(a, b)
    &&& same_daily(a, b)
    &&& same_activity(a, b)
}

/// Foreign keys of all eight child tables point at existing users.
pub open spec fn fks_ok(db: Database) -> bool {
    &&& settings_fk(db.settings@, db.users@)
    &&& stats_fk(db.user_stats@, db.users@)
    &&& pkeys_fk(db.problem_keys@, db.users@)
    &&& lessons_fk(db.lesson_progress@, db.users@)
    &&& courses_fk(db.course_progress@, db.users@)
    &&& snippets_fk(db.custom_snippets@, db.users@)
    &&& daily_fk(db.daily_results@, db.users@)
    &&& activity_fk(db.daily_activity@, db.users@)
}

/// The highest version the ledger records, or 0 with no ledger entry.
pub open spec fn current_version(vs: Seq<i64>) -> i64
    decreases vs.len(),
{
    if vs.len() == 0 {
        0
    } else {
        let rest = current_version(vs.drop_last());
        if vs.last() > rest {
            vs.last()
        } else {
            rest
        }
    }
}

impl Database {
    /// Well-formedness: unique keys in every table, and no child row owned
    /// by a user that is not present.
    pub open spec fn wf(&self) -> bool {
        &&& users_unique(self.users@)
        &&& settings_unique(self.settings@)
        &&& stats_unique(self.user_stats@)
        &&& pkeys_unique(self.problem_keys@)
        &&& lessons_unique(self.lesson_progress@)
        &&& courses_unique(self.course_progress@)
        &&& snippets_unique(self.custom_snippets@)
        &&& daily_unique(self.daily_results@)
        &&& activity_unique(self.daily_activity@)
        &&& fks_ok(*self)
    }
}

// ── Generic lemmas about filtered tables ───────────────────────────────

/// Filtering keeps a pointwise property of every element.
pub proof fn lemma_filter_keeps_pointwise<T>(s: Seq<T>, p: spec_fn(T) -> bool, q: spec_fn(T) -> bool)
    requires
        forall|i: int| 0 <= i < s.len() ==> q(s[i]),
    ensures
        forall|i: int| 0 <= i < s.filter(p).len() ==> q(s.filter(p)[i]),
{
    assert forall|i: int| 0 <= i < s.filter(p).len() implies q(s.filter(p)[i]) by {
        let x = s.filter(p)[i];
        assert(s.filter(p).contains(x));
        s.lemma_filter_contains_rev(p, x);
        let j = choose|j: int| 0 <= j < s.len() && s[j] == x;
        assert(q(s[j]));
    }
}

/// Filtering keeps pairwise distinctness of keys.
pub proof fn lemma_filter_keeps_distinct<T>(s: Seq<T>, p: spec_fn(T) -> bool, distinct: spec_fn(T, T) -> bool)
    requires
        forall|i: int, j: int| 0 <= i < j < s.len() ==> distinct(s[i], s[j]),
        forall|a: T, b: T| #[trigger] distinct(a, b) ==> distinct(b, a),
        forall|a: T| !#[trigger] distinct(a, a),
    ensures
        forall|i: int, j: int|
            0 <= i < j < s.filter(p).len() ==> distinct(s.filter(p)[i], s.filter(p)[j]),
    decreases s.len(),
{
    reveal(Seq::filter);
    if s.len() == 0 {
    } else {
        let rest = s.drop_last();
        lemma_filter_keeps_distinct(rest, p, distinct);
        if p(s.last()) {
            assert(s.filter(p) == rest.filter(p).push(s.last()));
            assert forall|i: int, j: int|
                0 <= i < j < s.filter(p).len() implies distinct(s.filter(p)[i], s.filter(p)[j]) by {
                if j < s.filter(p).len() - 1 {
                    assert(distinct(rest.filter(p)[i], rest.filter(p)[j]));
                } else {
                    let x = rest.filter(p)[i];
                    assert(rest.filter(p).contains(x));
                    rest.lemma_filter_contains_rev(p, x);
                    let k = choose|k: int| 0 <= k < rest.len() && rest[k] == x;
                    assert(s[k] == x);
                    assert(distinct(s[k], s.last()));
                }
            }
        }
    }
}

/// A user id survives a delete-by-id filter exactly when it exists and is
/// not the deleted id.
pub proof fn lemma_has_user_without(s: Seq<UserProfile>, deleted: i64, uid: i64)
    ensures
        has_user_id(users_without(s, deleted), uid) <==> (has_user_id(s, uid) && uid != deleted),
{
    let p = |u: UserProfile| u.id != deleted;
    if has_user_id(s, uid) && uid != deleted {
        let i = choose|i: int| 0 <= i < s.len() && s[i].id == uid;
        s.lemma_filter_contains(p, i);
        let t = s.filter(p);
        assert(t.contains(s[i]));
        let j = choose|j: int| 0 <= j < t.len() && t[j] == s[i];
        assert(has_user_id(t, uid));
    }
    if has_user_id(users_without(s, deleted), uid) {
        let t = s.filter(p);
        let i = choose|i: int| 0 <= i < t.len() && t[i].id == uid;
        s.lemma_filter_pred(p, i);
        assert(t.contains(t[i]));
        s.lemma_filter_contains_rev(p, t[i]);
        let j = choose|j: int| 0 <= j < s.len() && s[j] == t[i];
        assert(has_user_id(s, uid));
    }
}

/// Growing or reshaping the users table without losing any id keeps every
/// child foreign key satisfied, provided the child tables are unchanged.
pub proof fn lemma_fks_preserved(a: Database, b: Database)
    requires
        fks_ok(a),
        same_settings(a, b),
        same_stats(a, b),
        same_problem_keys(a, b),
        same_lessons(a, b),
        same_courses(a, b),
        same_snippets(a, b),
        same_daily(a, b),
        same_activity(a, b),
        forall|uid: i64| has_user_id(a.users@, uid) ==> has_user_id(b.users@, uid),
    ensures
        fks_ok(b),
{
}

impl Database {
    /// Open a fresh, empty store and bring its schema up to date.
    pub fn in_memory() -> (r: Result<Database, StorageError>)
        ensures
            r matches Ok(db) && db.wf() && current_version(db.schema_versions@) == 1
                && db.users@ == Seq::<UserProfile>::empty()
                && db.settings@ == Seq::<SettingsEntry>::empty()
                && db.user_stats@ == Seq::<UserStatsEntry>::empty()
                && db.problem_keys@ == Seq::<ProblemKeyEntry>::empty()
                && db.lesson_progress@ == Seq::<LessonEntry>::empty()
                && db.course_progress@ == Seq::<CourseEntry>::empty()
                && db.custom_snippets@ == Seq::<CustomSnippetRow>::empty()
                && db.daily_results@ == Seq::<DailyTestResultRow>::empty()
                && db.daily_activity@ == Seq::<ActivityEntry>::empty(),
    {
        let mut db = Database {
            schema_versions: Vec::new(),
            users: Vec::new(),
            settings: Vec::new(),
            user_stats: Vec::new(),
            problem_keys: Vec::new(),
            lesson_progress: Vec::new(),
            course_progress: Vec::new(),
            custom_snippets: Vec::new(),
            daily_results: Vec::new(),
            daily_activity: Vec::new(),
        };
        db.migrate();
        Ok(db)
    }

    /// The latest schema version the ledger records; 0 before any migration.
    pub fn get_schema_version(&self) -> (r: i64)
        ensures
            r == current_version(self.schema_versions@),
    {
        let mut best: i64 = 0;
        let mut i: usize = 0;
        while i < self.schema_versions.len()
            invariant
                i <= self.schema_versions.len(),
                best == current_version(self.schema_versions@.take(i as int)),
            decreases self.schema_versions.len() - i,
        {
            let v = self.schema_versions[i];
            proof {
                assert(self.schema_versions@.take(i + 1).drop_last() =~= self.schema_versions@.take(
                    i as int,
                ));
                assert(self.schema_versions@.take(i + 1).last() == self.schema_versions@[i as int]);
            }
            if v > best {
                best = v;
            }
            i = i + 1;
        }
        proof {
            assert(self.schema_versions@.take(self.schema_versions@.len() as int)
                =~= self.schema_versions@);
        }
        best
    }

    /// Apply every not-yet-applied migration step in ascending order, each
    /// in its own atomic unit, recording the new version in the ledger.
    /// Safe to call on every start; additive only.
    pub fn migrate(&mut self)
        ensures
            same_except_versions(*old(self), *final(self)),
            current_version(final(self).schema_versions@) == if current_version(
                old(self).schema_versions@,
            ) < 1 {
                1i64
            } else {
                current_version(old(self).schema_versions@)
            },
    {
        let version = self.get_schema_version();
        if version < 1 {
            self.migrate_to_v1();
        }
    }

    /// The first schema step. Table storage exists from construction, so the
    /// step only records version 1 in the ledger.
    fn migrate_to_v1(&mut self)
        ensures
            same_except_versions(*old(self), *final(self)),
            final(self).schema_versions@ == old(self).schema_versions@.push(1i64),
            current_version(final(self).schema_versions@) == if current_version(
                old(self).schema_versions@,
            ) < 1 {
                1i64
            } else {
                current_version(old(self).schema_versions@)
            },
    {
        self.schema_versions.push(1);
        proof {
            assert(self.schema_versions@.drop_last() =~= old(self).schema_versions@);
        }
    }

    /// True exactly when the users table is empty: the caller's one-shot
    /// gate for running the legacy import.
    pub fn is_migration_needed(&self) -> (r: Result<bool, StorageError>)
        ensures
            r matches Ok(b) && b == (self.users@.len() == 0),
    {
        Ok(self.users.len() == 0)
    }

    /// Whether a user with this id exists.
    pub fn contains_user(&self, id: i64) -> (r: bool)
        ensures
            r == has_user_id(self.users@, id),
    {
        let mut i: usize = 0;
        while i < self.users.len()
            invariant
                i <= self.users.len(),
                forall|j: int| 0 <= j < i ==> self.users@[j].id != id,
            decreases self.users.len() - i,
        {
            if self.users[i].id == id {
                return true;
            }
            i = i + 1;
        }
        false
    }

    /// Every user, ordered by ascending id.
    pub fn get_all_users(&self) -> (r: Result<Vec<UserProfile>, StorageError>)
        ensures
            r matches Ok(v) && v@.to_multiset() == self.users@.to_multiset() && (forall|
                k1: int,
                k2: int,
            |
                0 <= k1 < k2 < v@.len() ==> v@[k1].id <= v@[k2].id),
    {
        broadcast use vstd::seq_lib::group_to_multiset_ensures;

        let mut out: Vec<UserProfile> = Vec::new();
        let mut i: usize = 0;
        while i < self.users.len()
            invariant
                i <= self.users@.len(),
                out@.to_multiset() == self.users@.take(i as int).to_multiset(),
                forall|k1: int, k2: int| 0 <= k1 < k2 < out@.len() ==> out@[k1].id <= out@[k2].id,
            decreases self.users@.len() - i,
        {
            let x = self.users[i].clone();
            let ghost gx = self.users@[i as int];
            let ghost pre = out@;
            let mut pos: usize = 0;
            while pos < out.len() && out[pos].id <= x.id
                invariant
                    out@ == pre,
                    pos <= out@.len(),
                    x == gx,
                    forall|k: int| 0 <= k < pos ==> (#[trigger] out@[k]).id <= gx.id,
                decreases out@.len() - pos,
            {
                pos = pos + 1;
            }
            out.insert(pos, x);
            proof {
                broadcast use vstd::seq_lib::group_to_multiset_ensures;

                crate::order::lemma_insert_to_multiset(pre, pos as int, gx);
                assert(self.users@.take(i + 1) =~= self.users@.take(i as int).push(gx));
                assert(self.users@.take(i as int).push(gx).to_multiset() == self.users@.take(
                    i as int,
                ).to_multiset().insert(gx));
                assert forall|k1: int, k2: int| 0 <= k1 < k2 < out@.len() implies out@[k1].id
                    <= out@[k2].id by {
                    let pi = pos as int;
                    if k1 == pi && k2 > pi {
                        assert(out@[k2] == pre[k2 - 1]);
                        assert(pi < pre.len());
                        assert(!(pre[pi].id <= gx.id));
                        if k2 - 1 > pi {
                            assert(pre[pi].id <= pre[k2 - 1].id);
                        }
                    }
                }
            }
            i = i + 1;
        }
        proof {
            assert(self.users@.take(self.users@.len() as int) =~= self.users@);
        }
        Ok(out)
    }

    /// Insert a new user. A duplicate id is a constraint violation and
    /// leaves the store untouched; `last_active_at` starts absent.
    pub fn create_user(&mut self, id: i64, name: &str, avatar: &str, created_at: &str) -> (r:
        Result<(), StorageError>)
        requires
            old(self).wf(),
        ensures
            final(self).wf(),
            same_except_users(*old(self), *final(self)),
            match r {
                Ok(()) => {
                    &&& !has_user_id(old(self).users@, id)
                    &&& final(self).users@.len() == old(self).users@.len() + 1
                    &&& final(self).users@.drop_last() == old(self).users@
                    &&& final(self).users@.last().id == id
                    &&& final(self).users@.last().name@ == name@
                    &&& final(self).users@.last().avatar@ == avatar@
                    &&& final(self).users@.last().created_at@ == created_at@
                    &&& final(self).users@.last().last_active_at is None
                },
                Err(e) => {
                    &&& e == StorageError::ConstraintViolation
                    &&& has_user_id(old(self).users@, id)
                    &&& same_users(*old(self), *final(self))
                },
            },
    {
        if self.contains_user(id) {
            return Err(StorageError::ConstraintViolation);
        }
        let u = UserProfile {
            id,
            name: name.to_owned(),
            avatar: avatar.to_owned(),
            created_at: created_at.to_owned(),
            last_active_at: None,
        };
        self.users.push(u);
        proof {
            assert(self.users@.drop_last() =~= old(self).users@);
            assert forall|uid: i64| has_user_id(old(self).users@, uid) implies has_user_id(
                self.users@,
                uid,
            ) by {
                let k = choose|k: int| 0 <= k < old(self).users@.len() && old(self).users@[k].id
                    == uid;
                assert(self.users@[k].id == uid);
            }
            lemma_fks_preserved(*old(self), *self);
        }
        Ok(())
    }

    /// Partial update: each of name, avatar and last-active timestamp is
    /// written only when supplied; omitted fields keep their prior values.
    /// Updating an absent user is a no-op.
    pub fn update_user(
        &mut self,
        user_id: i64,
        name: Option<&str>,
        avatar: Option<&str>,
        last_active_at: Option<&str>,
    ) -> (r: Result<(), StorageError>)
        requires
            old(self).wf(),
        ensures
            final(self).wf(),
            same_except_users(*old(self), *final(self)),
            r is Ok,
            !has_user_id(old(self).users@, user_id) ==> same_users(*old(self), *final(self)),
            has_user_id(old(self).users@, user_id) ==> exists|i: int|
                {
                    &&& 0 <= i < old(self).users@.len()
                    &&& old(self).users@[i].id == user_id
                    &&& final(self).users@.len() == old(self).users@.len()
                    &&& (forall|j: int|
                        0 <= j < old(self).users@.len() && j != i ==> final(self).users@[j] == old(
                            self,
                        ).users@[j])
                    &&& final(self).users@[i].id == user_id
                    &&& final(self).users@[i].created_at == old(self).users@[i].created_at
                    &&& (match name {
                        Some(n) => final(self).users@[i].name@ == n@,
                        None => final(self).users@[i].name == old(self).users@[i].name,
                    })
                    &&& (match avatar {
                        Some(a) => final(self).users@[i].avatar@ == a@,
                        None => final(self).users@[i].avatar == old(self).users@[i].avatar,
                    })
                    &&& (match last_active_at {
                        Some(t) => final(self).users@[i].last_active_at matches Some(s) && s@
                            == t@,
                        None => final(self).users@[i].last_active_at == old(
                            self,
                        ).users@[i].last_active_at,
                    })
                },
    {
        let mut i: usize = 0;
        while i < self.users.len()
            invariant
                old(self).wf(),
                i <= self.users.len(),
                *self == *old(self),
                forall|j: int| 0 <= j < i ==> self.users@[j].id != user_id,
            decreases self.users.len() - i,
        {
            if self.users[i].id == user_id {
                let cur = self.users[i].clone();
                let new_name = match name {
                    Some(n) => n.to_owned(),
                    None => cur.name,
                };
                let new_avatar = match avatar {
                    Some(a) => a.to_owned(),
                    None => cur.avatar,
                };
                let new_last = match last_active_at {
                    Some(t) => Some(t.to_owned()),
                    None => cur.last_active_at,
                };
                let updated = UserProfile {
                    id: cur.id,
                    name: new_name,
                    avatar: new_avatar,
                    created_at: cur.created_at,
                    last_active_at: new_last,
                };
                self.users.set(i, updated);
                proof {
                    assert forall|uid: i64| has_user_id(old(self).users@, uid) implies has_user_id(
                        self.users@,
                        uid,
                    ) by {
                        let k = choose|k: int|
                            0 <= k < old(self).users@.len() && old(self).users@[k].id == uid;
                        assert(self.users@[k].id == uid);
                    }
                    lemma_fks_preserved(*old(self), *self);
                }
                return Ok(());
            }
            i = i + 1;
        }
        Ok(())
    }

    /// Delete a user and, by cascade, every row of every child table owned
    /// by that user. Deleting an absent user is a no-op.
    pub fn delete_user(&mut self, user_id: i64) -> (r: Result<(), StorageError>)
        requires
            old(self).wf(),
        ensures
            final(self).wf(),
            r is Ok,
            same_versions(*old(self), *final(self)),
            final(self).users@ == users_without(old(self).users@, user_id),
            final(self).settings@ == settings_without(old(self).settings@, user_id),
            final(self).user_stats@ == stats_without(old(self).user_stats@, user_id),
            final(self).problem_keys@ == pkeys_without(old(self).problem_keys@, user_id),
            final(self).lesson_progress@ == lessons_without(old(self).lesson_progress@, user_id),
            final(self).course_progress@ == courses_without(old(self).course_progress@, user_id),
            final(self).custom_snippets@ == snippets_without(old(self).custom_snippets@, user_id),
            final(self).daily_results@ == daily_without(old(self).daily_results@, user_id),
            final(self).daily_activity@ == activity_without(old(self).daily_activity@, user_id),
    {
        remove_users_for(&mut self.users, user_id);
        remove_settings_for(&mut self.settings, user_id);
        remove_stats_for(&mut self.user_stats, user_id);
        remove_pkeys_for(&mut self.problem_keys, user_id);
        remove_lessons_for(&mut self.lesson_progress, user_id);
        remove_courses_for(&mut self.course_progress, user_id);
        remove_snippets_for(&mut self.custom_snippets, user_id);
        remove_daily_for(&mut self.daily_results, user_id);
        remove_activity_for(&mut self.daily_activity, user_id);
        proof {
            lemma_delete_user_wf(*old(self), *self, user_id);
        }
        Ok(())
    }
}

/// Well-formedness carries over a cascading delete.
proof fn lemma_delete_user_wf(a: Database, b: Database, user_id: i64)
    requires
        a.wf(),
        same_versions(a, b),
        b.users@ == users_without(a.users@, user_id),
        b.settings@ == settings_without(a.settings@, user_id),
        b.user_stats@ == stats_without(a.user_stats@, user_id),
        b.problem_keys@ == pkeys_without(a.problem_keys@, user_id),
        b.lesson_progress@ == lessons_without(a.lesson_progress@, user_id),
        b.course_progress@ == courses_without(a.course_progress@, user_id),
        b.custom_snippets@ == snippets_without(a.custom_snippets@, user_id),
        b.daily_results@ == daily_without(a.daily_results@, user_id),
        b.daily_activity@ == activity_without(a.daily_activity@, user_id),
    ensures
        b.wf(),
{
    lemma_filter_keeps_distinct(
        a.users@,
        |u: UserProfile| u.id != user_id,
        |x: UserProfile, y: UserProfile| x.id != y.id,
    );
    lemma_filter_keeps_distinct(
        a.settings@,
        |e: SettingsEntry| e.user_id != user_id,
        |x: SettingsEntry, y: SettingsEntry| x.user_id != y.user_id,
    );
    lemma_filter_keeps_distinct(
        a.user_stats@,
        |e: UserStatsEntry| e.user_id != user_id,
        |x: UserStatsEntry, y: UserStatsEntry| x.user_id != y.user_id,
    );
    lemma_filter_keeps_distinct(
        a.problem_keys@,
        |e: ProblemKeyEntry| e.user_id != user_id,
        |x: ProblemKeyEntry, y: ProblemKeyEntry| !(x.user_id == y.user_id && x.key_char@
            == y.key_char@),
    );
    lemma_filter_keeps_distinct(
        a.lesson_progress@,
        |e: LessonEntry| e.user_id != user_id,
        |x: LessonEntry, y: LessonEntry| !(x.user_id == y.user_id && x.row.lesson_id@
            == y.row.lesson_id@),
    );
    lemma_filter_keeps_distinct(
        a.course_progress@,
        |e: CourseEntry| e.user_id != user_id,
        |x: CourseEntry, y: CourseEntry| !(x.user_id == y.user_id && x.row.course_id@
            == y.row.course_id@),
    );
    lemma_filter_keeps_distinct(
        a.custom_snippets@,
        |e: CustomSnippetRow| e.user_id != user_id,
        |x: CustomSnippetRow, y: CustomSnippetRow| x.id@ != y.id@,
    );
    lemma_filter_keeps_distinct(
        a.daily_results@,
        |e: DailyTestResultRow| e.user_id != user_id,
        |x: DailyTestResultRow, y: DailyTestResultRow| !(x.user_id == y.user_id && x.date@
            == y.date@),
    );
    lemma_filter_keeps_distinct(
        a.daily_activity@,
        |e: ActivityEntry| e.user_id != user_id,
        |x: ActivityEntry, y: ActivityEntry| !(x.user_id == y.user_id && x.row.date@
            == y.row.date@),
    );
    // Foreign keys: every surviving child row names a surviving user.
    assert forall|i: int| 0 <= i < b.settings@.len() implies has_user_id(
        b.users@,
        b.settings@[i].user_id,
    ) by {
        lemma_filter_keeps_pointwise(
            a.settings@,
            |e: SettingsEntry| e.user_id != user_id,
            |e: SettingsEntry| has_user_id(a.users@, e.user_id),
        );
        a.settings@.lemma_filter_pred(|e: SettingsEntry| e.user_id != user_id, i);
        lemma_has_user_without(a.users@, user_id, b.settings@[i].user_id);
    }
    assert forall|i: int| 0 <= i < b.user_stats@.len() implies has_user_id(
        b.users@,
        b.user_stats@[i].user_id,
    ) by {
        lemma_filter_keeps_pointwise(
            a.user_stats@,
            |e: UserStatsEntry| e.user_id != user_id,
            |e: UserStatsEntry| has_user_id(a.users@, e.user_id),
        );
        a.user_stats@.lemma_filter_pred(|e: UserStatsEntry| e.user_id != user_id, i);
        lemma_has_user_without(a.users@, user_id, b.user_stats@[i].user_id);
    }
    assert forall|i: int| 0 <= i < b.problem_keys@.len() implies has_user_id(
        b.users@,
        b.problem_keys@[i].user_id,
    ) by {
        lemma_filter_keeps_pointwise(
            a.problem_keys@,
            |e: ProblemKeyEntry| e.user_id != user_id,
            |e: ProblemKeyEntry| has_user_id(a.users@, e.user_id),
        );
        a.problem_keys@.lemma_filter_pred(|e: ProblemKeyEntry| e.user_id != user_id, i);
        lemma_has_user_without(a.users@, user_id, b.problem_keys@[i].user_id);
    }
    assert forall|i: int| 0 <= i < b.lesson_progress@.len() implies has_user_id(
        b.users@,
        b.lesson_progress@[i].user_id,
    ) by {
        lemma_filter_keeps_pointwise(
            a.lesson_progress@,
            |e: LessonEntry| e.user_id != user_id,
            |e: LessonEntry| has_user_id(a.users@, e.user_id),
        );
        a.lesson_progress@.lemma_filter_pred(|e: LessonEntry| e.user_id != user_id, i);
        lemma_has_user_without(a.users@, user_id, b.lesson_progress@[i].user_id);
    }
    assert forall|i: int| 0 <= i < b.course_progress@.len() implies has_user_id(
        b.users@,
        b.course_progress@[i].user_id,
    ) by {
        lemma_filter_keeps_pointwise(
            a.course_progress@,
            |e: CourseEntry| e.user_id != user_id,
            |e: CourseEntry| has_user_id(a.users@, e.user_id),
        );
        a.course_progress@.lemma_filter_pred(|e: CourseEntry| e.user_id != user_id, i);
        lemma_has_user_without(a.users@, user_id, b.course_progress@[i].user_id);
    }
    assert forall|i: int| 0 <= i < b.custom_snippets@.len() implies has_user_id(
        b.users@,
        b.custom_snippets@[i].user_id,
    ) by {
        lemma_filter_keeps_pointwise(
            a.custom_snippets@,
            |e: CustomSnippetRow| e.user_id != user_id,
            |e: CustomSnippetRow| has_user_id(a.users@, e.user_id),
        );
        a.custom_snippets@.lemma_filter_pred(|e: CustomSnippetRow| e.user_id != user_id, i);
        lemma_has_user_without(a.users@, user_id, b.custom_snippets@[i].user_id);
    }
    assert forall|i: int| 0 <= i < b.daily_results@.len() implies has_user_id(
        b.users@,
        b.daily_results@[i].user_id,
    ) by {
        lemma_filter_keeps_pointwise(
            a.daily_results@,
            |e: DailyTestResultRow| e.user_id != user_id,
            |e: DailyTestResultRow| has_user_id(a.users@, e.user_id),
        );
        a.daily_results@.lemma_filter_pred(|e: DailyTestResultRow| e.user_id != user_id, i);
        lemma_has_user_without(a.users@, user_id, b.daily_results@[i].user_id);
    }
    assert forall|i: int| 0 <= i < b.daily_activity@.len() implies has_user_id(
        b.users@,
        b.daily_activity@[i].user_id,
    ) by {
        lemma_filter_keeps_pointwise(
            a.daily_activity@,
            |e: ActivityEntry| e.user_id != user_id,
            |e: ActivityEntry| has_user_id(a.users@, e.user_id),
        );
        a.daily_activity@.lemma_filter_pred(|e: ActivityEntry| e.user_id != user_id, i);
        lemma_has_user_without(a.users@, user_id, b.daily_activity@[i].user_id);
    }
}

/// Cascade integrity: once a user is deleted, no child table holds a row of
/// that user, and every child row owned by any other user survives.
pub proof fn lemma_cascade_integrity(a: Database, b: Database, user_id: i64)
    requires
        b.settings@ == settings_without(a.settings@, user_id),
        b.user_stats@ == stats_without(a.user_stats@, user_id),
        b.problem_keys@ == pkeys_without(a.problem_keys@, user_id),
        b.lesson_progress@ == lessons_without(a.lesson_progress@, user_id),
        b.course_progress@ == courses_without(a.course_progress@, user_id),
        b.custom_snippets@ == snippets_without(a.custom_snippets@, user_id),
        b.daily_results@ == daily_without(a.daily_results@, user_id),
        b.daily_activity@ == activity_without(a.daily_activity@, user_id),
    ensures
        forall|i: int| 0 <= i < b.settings@.len() ==> (#[trigger] b.settings@[i]).user_id
            != user_id,
        forall|i: int|
            0 <= i < a.settings@.len() && (#[trigger] a.settings@[i]).user_id != user_id
                ==> b.settings@.contains(a.settings@[i]),
        forall|i: int| 0 <= i < b.user_stats@.len() ==> (#[trigger] b.user_stats@[i]).user_id
            != user_id,
        forall|i: int|
            0 <= i < a.user_stats@.len() && (#[trigger] a.user_stats@[i]).user_id != user_id
                ==> b.user_stats@.contains(a.user_stats@[i]),
        forall|i: int| 0 <= i < b.problem_keys@.len() ==> (#[trigger] b.problem_keys@[i]).user_id
            != user_id,
        forall|i: int|
            0 <= i < a.problem_keys@.len() && (#[trigger] a.problem_keys@[i]).user_id != user_id
                ==> b.problem_keys@.contains(a.problem_keys@[i]),
        forall|i: int|
            0 <= i < b.lesson_progress@.len() ==> (#[trigger] b.lesson_progress@[i]).user_id
                != user_id,
        forall|i: int|
            0 <= i < a.lesson_progress@.len() && (#[trigger] a.lesson_progress@[i]).user_id
                != user_id ==> b.lesson_progress@.contains(a.lesson_progress@[i]),
        forall|i: int|
            0 <= i < b.course_progress@.len() ==> (#[trigger] b.course_progress@[i]).user_id
                != user_id,
        forall|i: int|
            0 <= i < a.course_progress@.len() && (#[trigger] a.course_progress@[i]).user_id
                != user_id ==> b.course_progress@.contains(a.course_progress@[i]),
        forall|i: int|
            0 <= i < b.custom_snippets@.len() ==> (#[trigger] b.custom_snippets@[i]).user_id
                != user_id,
        forall|i: int|
            0 <= i < a.custom_snippets@.len() && (#[trigger] a.custom_snippets@[i]).user_id
                != user_id ==> b.custom_snippets@.contains(a.custom_snippets@[i]),
        forall|i: int| 0 <= i < b.daily_results@.len() ==> (#[trigger] b.daily_results@[i]).user_id
            != user_id,
        forall|i: int|
            0 <= i < a.daily_results@.len() && (#[trigger] a.daily_results@[i]).user_id != user_id
                ==> b.daily_results@.contains(a.daily_results@[i]),
        forall|i: int|
            0 <= i < b.daily_activity@.len() ==> (#[trigger] b.daily_activity@[i]).user_id
                != user_id,
        forall|i: int|
            0 <= i < a.daily_activity@.len() && (#[trigger] a.daily_activity@[i]).user_id
                != user_id ==> b.daily_activity@.contains(a.daily_activity@[i]),
{
    assert forall|i: int| 0 <= i < b.settings@.len() implies (#[trigger] b.settings@[i]).user_id
        != user_id by {
        a.settings@.lemma_filter_pred(|e: SettingsEntry| e.user_id != user_id, i);
    }
    assert forall|i: int|
        0 <= i < a.settings@.len() && (#[trigger] a.settings@[i]).user_id
            != user_id implies b.settings@.contains(a.settings@[i]) by {
        a.settings@.lemma_filter_contains(|e: SettingsEntry| e.user_id != user_id, i);
    }
    assert forall|i: int| 0 <= i < b.user_stats@.len() implies (#[trigger] b.user_stats@[i]).user_id
        != user_id by {
        a.user_stats@.lemma_filter_pred(|e: UserStatsEntry| e.user_id != user_id, i);
    }
    assert forall|i: int|
        0 <= i < a.user_stats@.len() && (#[trigger] a.user_stats@[i]).user_id
            != user_id implies b.user_stats@.contains(a.user_stats@[i]) by {
        a.user_stats@.lemma_filter_contains(|e: UserStatsEntry| e.user_id != user_id, i);
    }
    assert forall|i: int|
        0 <= i < b.problem_keys@.len() implies (#[trigger] b.problem_keys@[i]).user_id
        != user_id by {
        a.problem_keys@.lemma_filter_pred(|e: ProblemKeyEntry| e.user_id != user_id, i);
    }
    assert forall|i: int|
        0 <= i < a.problem_keys@.len() && (#[trigger] a.problem_keys@[i]).user_id
            != user_id implies b.problem_keys@.contains(a.problem_keys@[i]) by {
        a.problem_keys@.lemma_filter_contains(|e: ProblemKeyEntry| e.user_id != user_id, i);
    }
    assert forall|i: int|
        0 <= i < b.lesson_progress@.len() implies (#[trigger] b.lesson_progress@[i]).user_id
        != user_id by {
        a.lesson_progress@.lemma_filter_pred(|e: LessonEntry| e.user_id != user_id, i);
    }
    assert forall|i: int|
        0 <= i < a.lesson_progress@.len() && (#[trigger] a.lesson_progress@[i]).user_id
            != user_id implies b.lesson_progress@.contains(a.lesson_progress@[i]) by {
        a.lesson_progress@.lemma_filter_contains(|e: LessonEntry| e.user_id != user_id, i);
    }
    assert forall|i: int|
        0 <= i < b.course_progress@.len() implies (#[trigger] b.course_progress@[i]).user_id
        != user_id by {
        a.course_progress@.lemma_filter_pred(|e: CourseEntry| e.user_id != user_id, i);
    }
    assert forall|i: int|
        0 <= i < a.course_progress@.len() && (#[trigger] a.course_progress@[i]).user_id
            != user_id implies b.course_progress@.contains(a.course_progress@[i]) by {
        a.course_progress@.lemma_filter_contains(|e: CourseEntry| e.user_id != user_id, i);
    }
    assert forall|i: int|
        0 <= i < b.custom_snippets@.len() implies (#[trigger] b.custom_snippets@[i]).user_id
        != user_id by {
        a.custom_snippets@.lemma_filter_pred(|e: CustomSnippetRow| e.user_id != user_id, i);
    }
    assert forall|i: int|
        0 <= i < a.custom_snippets@.len() && (#[trigger] a.custom_snippets@[i]).user_id
            != user_id implies b.custom_snippets@.contains(a.custom_snippets@[i]) by {
        a.custom_snippets@.lemma_filter_contains(|e: CustomSnippetRow| e.user_id != user_id, i);
    }
    assert forall|i: int|
        0 <= i < b.daily_results@.len() implies (#[trigger] b.daily_results@[i]).user_id
        != user_id by {
        a.daily_results@.lemma_filter_pred(|e: DailyTestResultRow| e.user_id != user_id, i);
    }
    assert forall|i: int|
        0 <= i < a.daily_results@.len() && (#[trigger] a.daily_results@[i]).user_id
            != user_id implies b.daily_results@.contains(a.daily_results@[i]) by {
        a.daily_results@.lemma_filter_contains(|e: DailyTestResultRow| e.user_id != user_id, i);
    }
    assert forall|i: int|
        0 <= i < b.daily_activity@.len() implies (#[trigger] b.daily_activity@[i]).user_id
        != user_id by {
        a.daily_activity@.lemma_filter_pred(|e: ActivityEntry| e.user_id != user_id, i);
    }
    assert forall|i: int|
        0 <= i < a.daily_activity@.len() && (#[trigger] a.daily_activity@[i]).user_id
            != user_id implies b.daily_activity@.contains(a.daily_activity@[i]) by {
        a.daily_activity@.lemma_filter_contains(|e: ActivityEntry| e.user_id != user_id, i);
    }
}

/// The migration gate reports true exactly on an empty users table, so any
/// successful user creation, which grows the table by one row, turns it
/// false for good.
pub proof fn lemma_migration_gate(a: Database, b: Database)
    requires
        b.users@.len() == a.users@.len() + 1,
    ensures
        !(b.users@.len() == 0),
{
}

// ── Exec helpers: remove all rows owned by one user ────────────────────

pub fn remove_users_for(v: &mut Vec<UserProfile>, uid: i64)
    ensures
        final(v)@ == users_without(old(v)@, uid),
{
    let mut kept: Vec<UserProfile> = Vec::new();
    let mut i: usize = 0;
    while i < v.len()
        invariant
            i <= v.len(),
            *v == *old(v),
            kept@ =~= v@.take(i as int).filter(|u: UserProfile| u.id != uid),
        decreases v.len() - i,
    {
        proof {
            assert(v@.take(i + 1).drop_last() =~= v@.take(i as int));
        }
        if v[i].id != uid {
            kept.push(v[i].clone());
        }
        proof {
            reveal(Seq::filter);
        }
        i = i + 1;
    }
    proof {
        assert(v@.take(v@.len() as int) =~= v@);
    }
    *v = kept;
}

pub fn remove_settings_for(v: &mut Vec<SettingsEntry>, uid: i64)
    ensures
        final(v)@ == settings_without(old(v)@, uid),
{
    let mut kept: Vec<SettingsEntry> = Vec::new();
    let mut i: usize = 0;
    while i < v.len()
        invariant
            i <= v.len(),
            *v == *old(v),
            kept@ =~= v@.take(i as int).filter(|e: SettingsEntry| e.user_id != uid),
        decreases v.len() - i,
    {
        proof {
            assert(v@.take(i + 1).drop_last() =~= v@.take(i as int));
        }
        if v[i].user_id != uid {
            kept.push(v[i].clone());
        }
        proof {
            reveal(Seq::filter);
        }
        i = i + 1;
    }
    proof {
        assert(v@.take(v@.len() as int) =~= v@);
    }
    *v = kept;
}

pub fn remove_stats_for(v: &mut Vec<UserStatsEntry>, uid: i64)
    ensures
        final(v)@ == stats_without(old(v)@, uid),
{
    let mut kept: Vec<UserStatsEntry> = Vec::new();
    let mut i: usize = 0;
    while i < v.len()
        invariant
            i <= v.len(),
            *v == *old(v),
            kept@ =~= v@.take(i as int).filter(|e: UserStatsEntry| e.user_id != uid),
        decreases v.len() - i,
    {
        proof {
            assert(v@.take(i + 1).drop_last() =~= v@.take(i as int));
        }
        if v[i].user_id != uid {
            kept.push(v[i].clone());
        }
        proof {
            reveal(Seq::filter);
        }
        i = i + 1;
    }
    proof {
        assert(v@.take(v@.len() as int) =~= v@);
    }
    *v = kept;
}

pub fn remove_pkeys_for(v: &mut Vec<ProblemKeyEntry>, uid: i64)
    ensures
        final(v)@ == pkeys_without(old(v)@, uid),
{
    let mut kept: Vec<ProblemKeyEntry> = Vec::new();
    let mut i: usize = 0;
    while i < v.len()
        invariant
            i <= v.len(),
            *v == *old(v),
            kept@ =~= v@.take(i as int).filter(|e: ProblemKeyEntry| e.user_id != uid),
        decreases v.len() - i,
    {
        proof {
            assert(v@.take(i + 1).drop_last() =~= v@.take(i as int));
        }
        if v[i].user_id != uid {
            kept.push(v[i].clone());
        }
        proof {
            reveal(Seq::filter);
        }
        i = i + 1;
    }
    proof {
        assert(v@.take(v@.len() as int) =~= v@);
    }
    *v = kept;
}

pub fn remove_lessons_for(v: &mut Vec<LessonEntry>, uid: i64)
    ensures
        final(v)@ == lessons_without(old(v)@, uid),
{
    let mut kept: Vec<LessonEntry> = Vec::new();
    let mut i: usize = 0;
    while i < v.len()
        invariant
            i <= v.len(),
            *v == *old(v),
            kept@ =~= v@.take(i as int).filter(|e: LessonEntry| e.user_id != uid),
        decreases v.len() - i,
    {
        proof {
            assert(v@.take(i + 1).drop_last() =~= v@.take(i as int));
        }
        if v[i].user_id != uid {
            kept.push(v[i].clone());
        }
        proof {
            reveal(Seq::filter);
        }
        i = i + 1;
    }
    proof {
        assert(v@.take(v@.len() as int) =~= v@);
    }
    *v = kept;
}

pub fn remove_courses_for(v: &mut Vec<CourseEntry>, uid: i64)
    ensures
        final(v)@ == courses_without(old(v)@, uid),
{
    let mut kept: Vec<CourseEntry> = Vec::new();
    let mut i: usize = 0;
    while i < v.len()
        invariant
            i <= v.len(),
            *v == *old(v),
            kept@ =~= v@.take(i as int).filter(|e: CourseEntry| e.user_id != uid),
        decreases v.len() - i,
    {
        proof {
            assert(v@.take(i + 1).drop_last() =~= v@.take(i as int));
        }
        if v[i].user_id != uid {
            kept.push(v[i].clone());
        }
        proof {
            reveal(Seq::filter);
        }
        i = i + 1;
    }
    proof {
        assert(v@.take(v@.len() as int) =~= v@);
    }
    *v = kept;
}

pub fn remove_snippets_for(v: &mut Vec<CustomSnippetRow>, uid: i64)
    ensures
        final(v)@ == snippets_without(old(v)@, uid),
{
    let mut kept: Vec<CustomSnippetRow> = Vec::new();
    let mut i: usize = 0;
    while i < v.len()
        invariant
            i <= v.len(),
            *v == *old(v),
            kept@ =~= v@.take(i as int).filter(|e: CustomSnippetRow| e.user_id != uid),
        decreases v.len() - i,
    {
        proof {
            assert(v@.take(i + 1).drop_last() =~= v@.take(i as int));
        }
        if v[i].user_id != uid {
            kept.push(v[i].clone());
        }
        proof {
            reveal(Seq::filter);
        }
        i = i + 1;
    }
    proof {
        assert(v@.take(v@.len() as int) =~= v@);
    }
    *v = kept;
}

pub fn remove_daily_for(v: &mut Vec<DailyTestResultRow>, uid: i64)
    ensures
        final(v)@ == daily_without(old(v)@, uid),
{
    let mut kept: Vec<DailyTestResultRow> = Vec::new();
    let mut i: usize = 0;
    while i < v.len()
        invariant
            i <= v.len(),
            *v == *old(v),
            kept@ =~= v@.take(i as int).filter(|e: DailyTestResultRow| e.user_id != uid),
        decreases v.len() - i,
    {
        proof {
            assert(v@.take(i + 1).drop_last() =~= v@.take(i as int));
        }
        if v[i].user_id != uid {
            kept.push(v[i].clone());
        }
        proof {
            reveal(Seq::filter);
        }
        i = i + 1;
    }
    proof {
        assert(v@.take(v@.len() as int) =~= v@);
    }
    *v = kept;
}

pub fn remove_activity_for(v: &mut Vec<ActivityEntry>, uid: i64)
    ensures
        final(v)@ == activity_without(old(v)@, uid),
{
    let mut kept: Vec<ActivityEntry> = Vec::new();
    let mut i: usize = 0;
    while i < v.len()
        invariant
            i <= v.len(),
            *v == *old(v),
            kept@ =~= v@.take(i as int).filter(|e: ActivityEntry| e.user_id != uid),
        decreases v.len() - i,
    {
        proof {
            assert(v@.take(i + 1).drop_last() =~= v@.take(i as int));
        }
        if v[i].user_id != uid {
            kept.push(v[i].clone());
        }
        proof {
            reveal(Seq::filter);
        }
        i = i + 1;
    }
    proof {
        assert(v@.take(v@.len() as int) =~= v@);
    }
    *v = kept;
}

} // verus!
