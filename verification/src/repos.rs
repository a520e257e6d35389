//! Per-entity repository operations: upserts for the single-row tables
//! (settings, stats) and full-replace bulk writes for the multi-row tables
//! (lesson progress, course progress, snippets, daily results, activity).
//!
//! Every bulk write validates first and mutates only afterwards, so a failed
//! call never leaves a partial replace behind.

use vstd::prelude::*;

use crate::models::CourseProgressRow;
use crate::models::CustomSnippetRow;
use crate::models::DailyActivityRow;
use crate::models::DailyTestResultRow;
use crate::models::LessonProgressRow;
use crate::models::UserStatsRow;
use crate::storage::ActivityEntry;
use crate::storage::CourseEntry;
use crate::storage::Database;
use crate::storage::LessonEntry;
use crate::storage::ProblemKeyEntry;
use crate::storage::SettingsEntry;
use crate::storage::UserStatsEntry;
use crate::storage::has_settings;
use crate::storage::has_stats;
use crate::storage::has_user_id;
use crate::storage::lemma_filter_keeps_distinct;
use crate::storage::lemma_filter_keeps_pointwise;
use crate::storage::pkeys_without;
use crate::storage::activity_without;
use crate::storage::courses_without;
use crate::storage::has_snippet;
use crate::storage::lessons_without;
use crate::storage::remove_activity_for;
use crate::storage::remove_courses_for;
use crate::storage::remove_lessons_for;
use crate::storage::remove_pkeys_for;
use crate::storage::remove_snippets_for;
use crate::storage::same_activity;
use crate::storage::same_courses;
use crate::storage::same_daily;
use crate::storage::same_except_activity;
use crate::storage::same_except_courses;
use crate::storage::same_except_daily;
use crate::storage::same_except_lessons;
use crate::storage::same_except_snippets;
use crate::storage::same_lessons;
use crate::storage::same_snippets;
use crate::storage::snippets_without;
use crate::storage::same_except_settings;
use crate::storage::same_except_stats;
use crate::storage::same_problem_keys;
use crate::storage::same_settings;
use crate::storage::same_stats;
use crate::StorageError;

verus! {

broadcast use Seq::<_>::lemma_filter_push, Seq::<_>::lemma_take_succ_push, Seq::<_>::lemma_take_len;

// ── Spec: assembling and projecting rows ────────────────────────────────

/// The stats-table row that saving this stats value for this user writes.
pub open spec fn stats_entry_of(uid: i64, row: UserStatsRow) -> UserStatsEntry {
    UserStatsEntry {
        user_id: uid,
        total_practice_time: row.total_practice_time,
        total_words_typed: row.total_words_typed,
        average_wpm: row.average_wpm,
        average_accuracy: row.average_accuracy,
        average_true_accuracy: row.average_true_accuracy,
        total_keystrokes: row.total_keystrokes,
        total_backspaces: row.total_backspaces,
        total_correct_keystrokes: row.total_correct_keystrokes,
        lessons_completed: row.lessons_completed,
        current_streak: row.current_streak,
        longest_streak: row.longest_streak,
        last_practice_date: row.last_practice_date,
    }
}

/// A loaded stats row carries exactly the fields of the stored entry.
pub open spec fn stats_row_matches(row: UserStatsRow, e: UserStatsEntry) -> bool {
    &&& row.total_practice_time == e.total_practice_time
    &&& row.total_words_typed == e.total_words_typed
    &&& row.average_wpm == e.average_wpm
    &&& row.average_accuracy == e.average_accuracy
    &&& row.average_true_accuracy == e.average_true_accuracy
    &&& row.total_keystrokes == e.total_keystrokes
    &&& row.total_backspaces == e.total_backspaces
    &&& row.total_correct_keystrokes == e.total_correct_keystrokes
    &&& row.lessons_completed == e.lessons_completed
    &&& row.current_streak == e.current_streak
    &&& row.longest_streak == e.longest_streak
    &&& row.last_practice_date == e.last_practice_date
}

pub open spec fn pkey_entries_of(uid: i64, pairs: Seq<(String, i64)>) -> Seq<ProblemKeyEntry> {
    pairs.map_values(
        |p: (String, i64)| (ProblemKeyEntry { user_id: uid, key_char: p.0, error_count: p.1 }),
    )
}

pub open spec fn pkey_pairs_for(s: Seq<ProblemKeyEntry>, uid: i64) -> Seq<(String, i64)> {
    s.filter(|e: ProblemKeyEntry| e.user_id == uid).map_values(
        |e: ProblemKeyEntry| (e.key_char, e.error_count),
    )
}

pub open spec fn pkey_pairs_distinct(pairs: Seq<(String, i64)>) -> bool {
    forall|i: int, j: int| 0 <= i < j < pairs.len() ==> pairs[i].0@ != pairs[j].0@
}

pub open spec fn lesson_entries_of(uid: i64, rows: Seq<LessonProgressRow>) -> Seq<LessonEntry> {
    rows.map_values(|r: LessonProgressRow| (LessonEntry { user_id: uid, row: r }))
}

pub open spec fn lesson_rows_for(s: Seq<LessonEntry>, uid: i64) -> Seq<LessonProgressRow> {
    s.filter(|e: LessonEntry| e.user_id == uid).map_values(|e: LessonEntry| e.row)
}

pub open spec fn lesson_ids_distinct(rows: Seq<LessonProgressRow>) -> bool {
    forall|i: int, j: int| 0 <= i < j < rows.len() ==> rows[i].lesson_id@ != rows[j].lesson_id@
}

pub open spec fn course_entries_of(uid: i64, rows: Seq<CourseProgressRow>) -> Seq<CourseEntry> {
    rows.map_values(|r: CourseProgressRow| (CourseEntry { user_id: uid, row: r }))
}

pub open spec fn course_rows_for(s: Seq<CourseEntry>, uid: i64) -> Seq<CourseProgressRow> {
    s.filter(|e: CourseEntry| e.user_id == uid).map_values(|e: CourseEntry| e.row)
}

pub open spec fn course_ids_distinct(rows: Seq<CourseProgressRow>) -> bool {
    forall|i: int, j: int| 0 <= i < j < rows.len() ==> rows[i].course_id@ != rows[j].course_id@
}

/// All course rows except the one row of `uid` for `course` (if present).
pub open spec fn courses_without_one(s: Seq<CourseEntry>, uid: i64, course: Seq<char>) -> Seq<
    CourseEntry,
> {
    s.filter(|e: CourseEntry| !(e.user_id == uid && e.row.course_id@ == course))
}

pub open spec fn activity_entries_of(uid: i64, rows: Seq<DailyActivityRow>) -> Seq<ActivityEntry> {
    rows.map_values(|r: DailyActivityRow| (ActivityEntry { user_id: uid, row: r }))
}

pub open spec fn activity_rows_for(s: Seq<ActivityEntry>, uid: i64) -> Seq<DailyActivityRow> {
    s.filter(|e: ActivityEntry| e.user_id == uid).map_values(|e: ActivityEntry| e.row)
}

pub open spec fn activity_dates_distinct(rows: Seq<DailyActivityRow>) -> bool {
    forall|i: int, j: int| 0 <= i < j < rows.len() ==> rows[i].date@ != rows[j].date@
}

pub open spec fn snippet_ids_distinct(rows: Seq<CustomSnippetRow>) -> bool {
    forall|i: int, j: int| 0 <= i < j < rows.len() ==> rows[i].id@ != rows[j].id@
}

pub open spec fn snippet_users_ok(rows: Seq<CustomSnippetRow>, users: Seq<crate::models::UserProfile>) -> bool {
    forall|i: int| 0 <= i < rows.len() ==> has_user_id(users, rows[i].user_id)
}

pub open spec fn daily_keys_distinct(rows: Seq<DailyTestResultRow>) -> bool {
    forall|i: int, j: int|
        0 <= i < j < rows.len() ==> !(rows[i].user_id == rows[j].user_id && rows[i].date@
            == rows[j].date@)
}

pub open spec fn daily_users_ok(rows: Seq<DailyTestResultRow>, users: Seq<crate::models::UserProfile>) -> bool {
    forall|i: int| 0 <= i < rows.len() ==> has_user_id(users, rows[i].user_id)
}

// ── Generic lemma: a kept part plus a fresh per-user part stays unique ──

/// Concatenating rows of other owners with pairwise-distinct rows of one
/// owner keeps the whole table pairwise distinct.
pub proof fn lemma_replace_keeps_distinct<T>(
    kept: Seq<T>,
    fresh: Seq<T>,
    owner: spec_fn(T) -> i64,
    uid: i64,
    distinct: spec_fn(T, T) -> bool,
)
    requires
        forall|i: int, j: int| 0 <= i < j < kept.len() ==> distinct(kept[i], kept[j]),
        forall|i: int| 0 <= i < kept.len() ==> owner(kept[i]) != uid,
        forall|i: int, j: int| 0 <= i < j < fresh.len() ==> distinct(fresh[i], fresh[j]),
        forall|i: int| 0 <= i < fresh.len() ==> owner(fresh[i]) == uid,
        forall|a: T, b: T| owner(a) != owner(b) ==> #[trigger] distinct(a, b),
    ensures
        forall|i: int, j: int| 0 <= i < j < (kept + fresh).len() ==> distinct(
            (kept + fresh)[i],
            (kept + fresh)[j],
        ),
{
    assert forall|i: int, j: int| 0 <= i < j < (kept + fresh).len() implies distinct(
        (kept + fresh)[i],
        (kept + fresh)[j],
    ) by {
        if j < kept.len() {
            assert(distinct(kept[i], kept[j]));
        } else if i >= kept.len() {
            assert(distinct(fresh[i - kept.len()], fresh[j - kept.len()]));
        } else {
            assert(owner((kept + fresh)[i]) != uid && owner((kept + fresh)[j]) == uid);
        }
    }
}

/// The read order of daily test results: by date (UTF-8 byte order, the
/// binary collation of a TEXT key), then by user id.
pub open spec fn daily_le(a: DailyTestResultRow, b: DailyTestResultRow) -> bool {
    if vstd::utf8::encode_utf8(a.date@) == vstd::utf8::encode_utf8(b.date@) {
        a.user_id <= b.user_id
    } else {
        crate::order::str_le(a.date@, b.date@)
    }
}

/// The read order of activity rows: by date.
pub open spec fn activity_row_le(a: DailyActivityRow, b: DailyActivityRow) -> bool {
    crate::order::str_le(a.date@, b.date@)
}

/// The read order of snippets: by creation timestamp.
pub open spec fn snippet_le(a: CustomSnippetRow, b: CustomSnippetRow) -> bool {
    crate::order::str_le(a.created_at@, b.created_at@)
}

proof fn lemma_daily_le_total(a: DailyTestResultRow, b: DailyTestResultRow)
    ensures
        daily_le(a, b) || daily_le(b, a),
{
    crate::order::lemma_bytes_le_total(
        vstd::utf8::encode_utf8(a.date@),
        vstd::utf8::encode_utf8(b.date@),
    );
}

proof fn lemma_daily_le_trans(a: DailyTestResultRow, b: DailyTestResultRow, c: DailyTestResultRow)
    requires
        daily_le(a, b),
        daily_le(b, c),
    ensures
        daily_le(a, c),
{
    let ea = vstd::utf8::encode_utf8(a.date@);
    let eb = vstd::utf8::encode_utf8(b.date@);
    let ec = vstd::utf8::encode_utf8(c.date@);
    if ea != eb && eb != ec {
        crate::order::lemma_bytes_le_trans(ea, eb, ec);
        if ea == ec {
            crate::order::lemma_bytes_le_antisym(ea, eb);
        }
    }
}

/// Inserting at the scan position keeps the daily read order.
proof fn lemma_daily_sorted_insert(pre: Seq<DailyTestResultRow>, pos: int, x: DailyTestResultRow)
    requires
        0 <= pos <= pre.len(),
        forall|k1: int, k2: int| 0 <= k1 < k2 < pre.len() ==> daily_le(pre[k1], pre[k2]),
        forall|k: int| 0 <= k < pos ==> daily_le(pre[k], x),
        pos < pre.len() ==> !daily_le(pre[pos], x),
    ensures
        forall|k1: int, k2: int|
            0 <= k1 < k2 < pre.insert(pos, x).len() ==> daily_le(
                pre.insert(pos, x)[k1],
                pre.insert(pos, x)[k2],
            ),
{
    assert forall|p: DailyTestResultRow, q: DailyTestResultRow| #[trigger]
        daily_le(p, q) || daily_le(q, p) by {
        lemma_daily_le_total(p, q);
    }
    assert forall|p: DailyTestResultRow, q: DailyTestResultRow, s: DailyTestResultRow|
        #![trigger daily_le(p, q), daily_le(q, s)]
        daily_le(p, q) && daily_le(q, s) implies daily_le(p, s) by {
        lemma_daily_le_trans(p, q, s);
    }
    crate::order::lemma_sorted_insert(
        pre,
        pos,
        x,
        |p: DailyTestResultRow, q: DailyTestResultRow| daily_le(p, q),
    );
}

/// Inserting at the scan position keeps the activity read order.
proof fn lemma_activity_sorted_insert(pre: Seq<DailyActivityRow>, pos: int, x: DailyActivityRow)
    requires
        0 <= pos <= pre.len(),
        forall|k1: int, k2: int| 0 <= k1 < k2 < pre.len() ==> activity_row_le(pre[k1], pre[k2]),
        forall|k: int| 0 <= k < pos ==> activity_row_le(pre[k], x),
        pos < pre.len() ==> !activity_row_le(pre[pos], x),
    ensures
        forall|k1: int, k2: int|
            0 <= k1 < k2 < pre.insert(pos, x).len() ==> activity_row_le(
                pre.insert(pos, x)[k1],
                pre.insert(pos, x)[k2],
            ),
{
    assert forall|p: DailyActivityRow, q: DailyActivityRow| #[trigger]
        activity_row_le(p, q) || activity_row_le(q, p) by {
        crate::order::lemma_bytes_le_total(
            vstd::utf8::encode_utf8(p.date@),
            vstd::utf8::encode_utf8(q.date@),
        );
    }
    assert forall|p: DailyActivityRow, q: DailyActivityRow, s: DailyActivityRow|
        #![trigger activity_row_le(p, q), activity_row_le(q, s)]
        activity_row_le(p, q) && activity_row_le(q, s) implies activity_row_le(p, s) by {
        crate::order::lemma_bytes_le_trans(
            vstd::utf8::encode_utf8(p.date@),
            vstd::utf8::encode_utf8(q.date@),
            vstd::utf8::encode_utf8(s.date@),
        );
    }
    crate::order::lemma_sorted_insert(
        pre,
        pos,
        x,
        |p: DailyActivityRow, q: DailyActivityRow| activity_row_le(p, q),
    );
}

/// Inserting at the scan position keeps the snippet read order.
proof fn lemma_snippet_sorted_insert(pre: Seq<CustomSnippetRow>, pos: int, x: CustomSnippetRow)
    requires
        0 <= pos <= pre.len(),
        forall|k1: int, k2: int| 0 <= k1 < k2 < pre.len() ==> snippet_le(pre[k1], pre[k2]),
        forall|k: int| 0 <= k < pos ==> snippet_le(pre[k], x),
        pos < pre.len() ==> !snippet_le(pre[pos], x),
    ensures
        forall|k1: int, k2: int|
            0 <= k1 < k2 < pre.insert(pos, x).len() ==> snippet_le(
                pre.insert(pos, x)[k1],
                pre.insert(pos, x)[k2],
            ),
{
    assert forall|p: CustomSnippetRow, q: CustomSnippetRow| #[trigger]
        snippet_le(p, q) || snippet_le(q, p) by {
        crate::order::lemma_bytes_le_total(
            vstd::utf8::encode_utf8(p.created_at@),
            vstd::utf8::encode_utf8(q.created_at@),
        );
    }
    assert forall|p: CustomSnippetRow, q: CustomSnippetRow, s: CustomSnippetRow|
        #![trigger snippet_le(p, q), snippet_le(q, s)]
        snippet_le(p, q) && snippet_le(q, s) implies snippet_le(p, s) by {
        crate::order::lemma_bytes_le_trans(
            vstd::utf8::encode_utf8(p.created_at@),
            vstd::utf8::encode_utf8(q.created_at@),
            vstd::utf8::encode_utf8(s.created_at@),
        );
    }
    crate::order::lemma_sorted_insert(
        pre,
        pos,
        x,
        |p: CustomSnippetRow, q: CustomSnippetRow| snippet_le(p, q),
    );
}

/// Compare two daily results in the read order.
fn daily_le_exec(a: &DailyTestResultRow, b: &DailyTestResultRow) -> (r: bool)
    ensures
        r == daily_le(*a, *b),
{
    let le1 = crate::order::str_le_exec(a.date.as_str(), b.date.as_str());
    let le2 = crate::order::str_le_exec(b.date.as_str(), a.date.as_str());
    if le1 && le2 {
        proof {
            crate::order::lemma_bytes_le_antisym(
                vstd::utf8::encode_utf8(a.date@),
                vstd::utf8::encode_utf8(b.date@),
            );
        }
        a.user_id <= b.user_id
    } else {
        proof {
            if vstd::utf8::encode_utf8(a.date@) == vstd::utf8::encode_utf8(b.date@) {
                crate::order::lemma_bytes_le_refl(vstd::utf8::encode_utf8(a.date@));
            }
        }
        le1
    }
}

/// Filtering a sequence whose elements all satisfy the predicate keeps it.
proof fn lemma_filter_all_true<T>(s: Seq<T>, p: spec_fn(T) -> bool)
    requires
        forall|i: int| 0 <= i < s.len() ==> p(#[trigger] s[i]),
    ensures
        s.filter(p) == s,
    decreases s.len(),
{
    if s.len() == 0 {
        reveal(Seq::filter);
    } else {
        let dl = s.drop_last();
        assert(forall|i: int| 0 <= i < dl.len() ==> p(#[trigger] dl[i]));
        lemma_filter_all_true(dl, p);
        assert(p(s.last()));
        assert(dl.push(s.last()) =~= s);
        assert(dl.push(s.last()).filter(p) == dl.filter(p).push(s.last()));
    }
}

/// Filtering twice, where the second predicate subsumes the first, equals
/// filtering once by the second predicate.
proof fn lemma_filter_filter<T>(s: Seq<T>, p: spec_fn(T) -> bool, q: spec_fn(T) -> bool)
    requires
        forall|x: T| #[trigger] q(x) ==> p(x),
    ensures
        s.filter(p).filter(q) == s.filter(q),
    decreases s.len(),
{
    broadcast use Seq::<_>::lemma_filter_push;

    reveal(Seq::filter);
    if s.len() > 0 {
        lemma_filter_filter(s.drop_last(), p, q);
        if p(s.last()) {
            assert(s.filter(p) == s.drop_last().filter(p).push(s.last()));
        } else {
            assert(!q(s.last()));
        }
    }
}

/// Full replace: after a bulk save of one user's complete lesson set,
/// reading that user yields exactly the given rows — with the empty set,
/// zero rows — and every other user's rows are exactly what they were.
pub proof fn lemma_full_replace_lessons(t: Seq<LessonEntry>, uid: i64, rows: Seq<LessonProgressRow>)
    ensures
        lesson_rows_for(lessons_without(t, uid) + lesson_entries_of(uid, rows), uid) == rows,
        forall|other: i64|
            other != uid ==> #[trigger] lesson_rows_for(
                lessons_without(t, uid) + lesson_entries_of(uid, rows),
                other,
            ) == lesson_rows_for(t, other),
{
    broadcast use Seq::<_>::filter_distributes_over_add;

    let kept = lessons_without(t, uid);
    let fresh = lesson_entries_of(uid, rows);
    let mine = |e: LessonEntry| e.user_id == uid;
    assert forall|i: int| 0 <= i < kept.len() implies !mine(kept[i]) by {
        t.lemma_filter_pred(|e: LessonEntry| e.user_id != uid, i);
    }
    kept.lemma_all_neg_filter_empty(mine);
    assert(kept.filter(mine) =~= Seq::<LessonEntry>::empty());
    lemma_filter_all_true(fresh, mine);
    assert((kept + fresh).filter(mine) =~= fresh);
    assert(lesson_rows_for(kept + fresh, uid) =~= rows);
    assert forall|other: i64| other != uid implies #[trigger] lesson_rows_for(
        kept + fresh,
        other,
    ) == lesson_rows_for(t, other) by {
        let theirs = |e: LessonEntry| e.user_id == other;
        assert forall|i: int| 0 <= i < fresh.len() implies !theirs(fresh[i]) by {}
        fresh.lemma_all_neg_filter_empty(theirs);
        lemma_filter_filter(t, |e: LessonEntry| e.user_id != uid, theirs);
        assert((kept + fresh).filter(theirs) =~= t.filter(theirs));
        assert(lesson_rows_for(kept + fresh, other) =~= lesson_rows_for(t, other));
    }
}

impl Database {
    // ── Settings ────────────────────────────────────────────────────────

    /// The stored settings blob of a user, or `None` when absent.
    pub fn get_settings(&self, user_id: i64) -> (r: Result<Option<String>, StorageError>)
        requires
            self.wf(),
        ensures
            r matches Ok(opt) && match opt {
                Some(json) => exists|i: int|
                    0 <= i < self.settings@.len() && self.settings@[i].user_id == user_id && json@
                        == self.settings@[i].settings_json@,
                None => !has_settings(self.settings@, user_id),
            },
    {
        let mut i: usize = 0;
        while i < self.settings.len()
            invariant
                i <= self.settings.len(),
                forall|j: int| 0 <= j < i ==> self.settings@[j].user_id != user_id,
            decreases self.settings.len() - i,
        {
            if self.settings[i].user_id == user_id {
                return Ok(Some(self.settings[i].settings_json.clone()));
            }
            i = i + 1;
        }
        Ok(None)
    }

    /// Upsert the settings blob for one user. Writing settings for an
    /// absent user is a constraint violation and changes nothing.
    pub fn save_settings(&mut self, user_id: i64, settings_json: &str) -> (r: Result<
        (),
        StorageError,
    >)
        requires
            old(self).wf(),
        ensures
            final(self).wf(),
            same_except_settings(*old(self), *final(self)),
            match r {
                Ok(()) => {
                    &&& has_user_id(old(self).users@, user_id)
                    &&& has_settings(old(self).settings@, user_id) ==> {
                        &&& final(self).settings@.len() == old(self).settings@.len()
                        &&& (forall|j: int|
                            0 <= j < old(self).settings@.len()
                                ==> final(self).settings@[j].user_id
                                == old(self).settings@[j].user_id)
                        &&& (forall|j: int|
                            0 <= j < old(self).settings@.len() && old(self).settings@[j].user_id
                                != user_id ==> final(self).settings@[j] == old(self).settings@[j])
                    }
                    &&& !has_settings(old(self).settings@, user_id) ==> {
                        &&& final(self).settings@.len() == old(self).settings@.len() + 1
                        &&& final(self).settings@.drop_last() == old(self).settings@
                        &&& final(self).settings@.last().user_id == user_id
                    }
                    &&& forall|j: int|
                        0 <= j < final(self).settings@.len() && final(self).settings@[j].user_id
                            == user_id ==> final(self).settings@[j].settings_json@
                            == settings_json@
                },
                Err(e) => {
                    &&& e == StorageError::ConstraintViolation
                    &&& !has_user_id(old(self).users@, user_id)
                    &&& same_settings(*old(self), *final(self))
                },
            },
    {
        if !self.contains_user(user_id) {
            return Err(StorageError::ConstraintViolation);
        }
        let mut i: usize = 0;
        while i < self.settings.len()
            invariant
                old(self).wf(),
                *self == *old(self),
                i <= self.settings.len(),
                forall|j: int| 0 <= j < i ==> self.settings@[j].user_id != user_id,
            decreases self.settings.len() - i,
        {
            if self.settings[i].user_id == user_id {
                let e = SettingsEntry { user_id, settings_json: settings_json.to_owned() };
                self.settings.set(i, e);
                return Ok(());
            }
            i = i + 1;
        }
        let e = SettingsEntry { user_id, settings_json: settings_json.to_owned() };
        self.settings.push(e);
        proof {
            assert(self.settings@.drop_last() =~= old(self).settings@);
        }
        Ok(())
    }

    // ── User stats and problem keys ─────────────────────────────────────

    /// The stored per-key error counters of one user, worst first.
    fn get_problem_keys(&self, user_id: i64) -> (r: Vec<(String, i64)>)
        ensures
            r@.to_multiset() == pkey_pairs_for(self.problem_keys@, user_id).to_multiset(),
            forall|k1: int, k2: int| 0 <= k1 < k2 < r@.len() ==> r@[k1].1 >= r@[k2].1,
    {
        let mut flt: Vec<(String, i64)> = Vec::new();
        let mut i: usize = 0;
        while i < self.problem_keys.len()
            invariant
                i <= self.problem_keys.len(),
                flt@ =~= pkey_pairs_for(self.problem_keys@.take(i as int), user_id),
            decreases self.problem_keys.len() - i,
        {
            if self.problem_keys[i].user_id == user_id {
                flt.push((self.problem_keys[i].key_char.clone(), self.problem_keys[i].error_count));
            }
            i = i + 1;
        }
        proof {
            assert(self.problem_keys@.take(self.problem_keys@.len() as int)
                =~= self.problem_keys@);
        }
        // Sort by descending error count, as reads of the counters report.
        let mut out: Vec<(String, i64)> = Vec::new();
        let mut a: usize = 0;
        proof {
            assert(flt@.take(0) =~= out@);
        }
        while a < flt.len()
            invariant
                a <= flt@.len(),
                flt@ == pkey_pairs_for(self.problem_keys@, user_id),
                out@.to_multiset() == flt@.take(a as int).to_multiset(),
                forall|k1: int, k2: int| 0 <= k1 < k2 < out@.len() ==> out@[k1].1 >= out@[k2].1,
            decreases flt@.len() - a,
        {
            let x = (flt[a].0.clone(), flt[a].1);
            let ghost gx = flt@[a as int];
            let ghost pre = out@;
            let mut pos: usize = 0;
            while pos < out.len() && out[pos].1 >= x.1
                invariant
                    out@ == pre,
                    pos <= out@.len(),
                    x == gx,
                    forall|k: int| 0 <= k < pos ==> (#[trigger] out@[k]).1 >= gx.1,
                decreases out@.len() - pos,
            {
                pos = pos + 1;
            }
            out.insert(pos, x);
            proof {
                broadcast use vstd::seq_lib::group_to_multiset_ensures;

                crate::order::lemma_insert_to_multiset(pre, pos as int, gx);
                assert(flt@.take(a + 1) =~= flt@.take(a as int).push(gx));
                assert(flt@.take(a as int).push(gx).to_multiset() == flt@.take(
                    a as int,
                ).to_multiset().insert(gx));
                crate::order::lemma_sorted_insert(
                    pre,
                    pos as int,
                    gx,
                    |p: (String, i64), q: (String, i64)| p.1 >= q.1,
                );
            }
            a = a + 1;
        }
        proof {
            assert(flt@.take(flt@.len() as int) =~= flt@);
        }
        out
    }

    /// The stats of a user, with the owned problem-key counters attached,
    /// or `None` when no stats row exists.
    pub fn get_user_stats(&self, user_id: i64) -> (r: Result<Option<UserStatsRow>, StorageError>)
        requires
            self.wf(),
        ensures
            r matches Ok(opt) && match opt {
                Some(row) => {
                    &&& exists|i: int|
                        0 <= i < self.user_stats@.len() && self.user_stats@[i].user_id == user_id
                            && stats_row_matches(row, self.user_stats@[i])
                    &&& row.problem_keys@.to_multiset() == pkey_pairs_for(
                        self.problem_keys@,
                        user_id,
                    ).to_multiset()
                    &&& (forall|k1: int, k2: int|
                        0 <= k1 < k2 < row.problem_keys@.len() ==> row.problem_keys@[k1].1
                            >= row.problem_keys@[k2].1)
                },
                None => !has_stats(self.user_stats@, user_id),
            },
    {
        let mut i: usize = 0;
        while i < self.user_stats.len()
            invariant
                i <= self.user_stats.len(),
                forall|j: int| 0 <= j < i ==> self.user_stats@[j].user_id != user_id,
            decreases self.user_stats.len() - i,
        {
            if self.user_stats[i].user_id == user_id {
                let e = self.user_stats[i].clone();
                let keys = self.get_problem_keys(user_id);
                let row = UserStatsRow {
                    total_practice_time: e.total_practice_time,
                    total_words_typed: e.total_words_typed,
                    average_wpm: e.average_wpm,
                    average_accuracy: e.average_accuracy,
                    average_true_accuracy: e.average_true_accuracy,
                    total_keystrokes: e.total_keystrokes,
                    total_backspaces: e.total_backspaces,
                    total_correct_keystrokes: e.total_correct_keystrokes,
                    lessons_completed: e.lessons_completed,
                    current_streak: e.current_streak,
                    longest_streak: e.longest_streak,
                    last_practice_date: e.last_practice_date,
                    problem_keys: keys,
                };
                return Ok(Some(row));
            }
            i = i + 1;
        }
        Ok(None)
    }

    /// The position of a user's stats row, if one exists.
    fn find_stats_index(&self, user_id: i64) -> (r: Option<usize>)
        ensures
            match r {
                Some(i) => i < self.user_stats@.len() && self.user_stats@[i as int].user_id
                    == user_id,
                None => !has_stats(self.user_stats@, user_id),
            },
    {
        let mut i: usize = 0;
        while i < self.user_stats.len()
            invariant
                i <= self.user_stats.len(),
                forall|j: int| 0 <= j < i ==> self.user_stats@[j].user_id != user_id,
            decreases self.user_stats.len() - i,
        {
            if self.user_stats[i].user_id == user_id {
                return Some(i);
            }
            i = i + 1;
        }
        None
    }

    /// Upsert the stats row of one user and replace that user's problem-key
    /// counters with the given set, in one call. Fails, changing nothing,
    /// when the user is absent or the given keys collide.
    pub fn save_user_stats(&mut self, user_id: i64, stats: &UserStatsRow) -> (r: Result<
        (),
        StorageError,
    >)
        requires
            old(self).wf(),
        ensures
            final(self).wf(),
            same_except_stats(*old(self), *final(self)),
            match r {
                Ok(()) => {
                    &&& has_user_id(old(self).users@, user_id)
                    &&& pkey_pairs_distinct(stats.problem_keys@)
                    &&& has_stats(old(self).user_stats@, user_id) ==> exists|i: int|
                        0 <= i < old(self).user_stats@.len() && old(self).user_stats@[i].user_id
                            == user_id && final(self).user_stats@ == old(self).user_stats@.update(
                            i,
                            stats_entry_of(user_id, *stats),
                        )
                    &&& !has_stats(old(self).user_stats@, user_id) ==> final(self).user_stats@
                        == old(self).user_stats@.push(stats_entry_of(user_id, *stats))
                    &&& final(self).problem_keys@ == pkeys_without(
                        old(self).problem_keys@,
                        user_id,
                    ) + pkey_entries_of(user_id, stats.problem_keys@)
                },
                Err(e) => {
                    &&& e == StorageError::ConstraintViolation
                    &&& !(has_user_id(old(self).users@, user_id) && pkey_pairs_distinct(
                        stats.problem_keys@,
                    ))
                    &&& same_stats(*old(self), *final(self))
                    &&& same_problem_keys(*old(self), *final(self))
                },
            },
    {
        if !self.contains_user(user_id) {
            return Err(StorageError::ConstraintViolation);
        }
        // The given problem keys must not collide with each other.
        let mut a: usize = 0;
        while a < stats.problem_keys.len()
            invariant
                old(self).wf(),
                *self == *old(self),
                a <= stats.problem_keys@.len(),
                forall|i: int, j: int|
                    0 <= i < j < stats.problem_keys@.len() && i < a ==> stats.problem_keys@[i].0@
                        != stats.problem_keys@[j].0@,
            decreases stats.problem_keys.len() - a,
        {
            let mut b: usize = a + 1;
            while b < stats.problem_keys.len()
                invariant
                    old(self).wf(),
                    *self == *old(self),
                    a < b || a == b,
                    a < stats.problem_keys@.len(),
                    b <= stats.problem_keys@.len(),
                    a + 1 <= b,
                    forall|j: int|
                        a < j < b ==> stats.problem_keys@[a as int].0@ != stats.problem_keys@[j].0@,
                decreases stats.problem_keys.len() - b,
            {
                if stats.problem_keys[a].0 == stats.problem_keys[b].0 {
                    proof {
                        assert(stats.problem_keys@[a as int].0@ == stats.problem_keys@[b as int].0@);
                        assert(!pkey_pairs_distinct(stats.problem_keys@));
                    }
                    return Err(StorageError::ConstraintViolation);
                }
                b = b + 1;
            }
            a = a + 1;
        }
        assert(pkey_pairs_distinct(stats.problem_keys@));

        // Upsert the stats row.
        let entry = UserStatsEntry {
            user_id,
            total_practice_time: stats.total_practice_time,
            total_words_typed: stats.total_words_typed,
            average_wpm: stats.average_wpm,
            average_accuracy: stats.average_accuracy,
            average_true_accuracy: stats.average_true_accuracy,
            total_keystrokes: stats.total_keystrokes,
            total_backspaces: stats.total_backspaces,
            total_correct_keystrokes: stats.total_correct_keystrokes,
            lessons_completed: stats.lessons_completed,
            current_streak: stats.current_streak,
            longest_streak: stats.longest_streak,
            last_practice_date: stats.last_practice_date.clone(),
        };
        match self.find_stats_index(user_id) {
            Some(i) => {
                self.user_stats.set(i, entry);
            },
            None => {
                self.user_stats.push(entry);
            },
        }

        // Replace the problem keys of this user.
        let ghost mid = *self;
        remove_pkeys_for(&mut self.problem_keys, user_id);
        let mut k: usize = 0;
        while k < stats.problem_keys.len()
            invariant
                old(self).wf(),
                k <= stats.problem_keys@.len(),
                same_except_stats(*old(self), *self),
                self.users == old(self).users,
                self.user_stats == mid.user_stats,
                self.problem_keys@ =~= pkeys_without(old(self).problem_keys@, user_id)
                    + pkey_entries_of(user_id, stats.problem_keys@.take(k as int)),
            decreases stats.problem_keys.len() - k,
        {
            let pk = ProblemKeyEntry {
                user_id,
                key_char: stats.problem_keys[k].0.clone(),
                error_count: stats.problem_keys[k].1,
            };
            self.problem_keys.push(pk);
            k = k + 1;
        }
        proof {
            assert(self.problem_keys@ =~= pkeys_without(old(self).problem_keys@, user_id)
                + pkey_entries_of(user_id, stats.problem_keys@));
            lemma_save_stats_wf(*old(self), *self, user_id, *stats);
        }
        Ok(())
    }
}

/// Well-formedness carries over a stats upsert with problem-key replace.
proof fn lemma_save_stats_wf(a: Database, b: Database, user_id: i64, stats: UserStatsRow)
    requires
        a.wf(),
        has_user_id(a.users@, user_id),
        pkey_pairs_distinct(stats.problem_keys@),
        same_except_stats(a, b),
        (exists|i: int|
            0 <= i < a.user_stats@.len() && a.user_stats@[i].user_id == user_id && b.user_stats@
                == a.user_stats@.update(i, stats_entry_of(user_id, stats))) || (!has_stats(
            a.user_stats@,
            user_id,
        ) && b.user_stats@ == a.user_stats@.push(stats_entry_of(user_id, stats))),
        b.problem_keys@ == pkeys_without(a.problem_keys@, user_id) + pkey_entries_of(
            user_id,
            stats.problem_keys@,
        ),
    ensures
        b.wf(),
{
    // Stats table stays unique, and its foreign keys hold.
    if exists|i: int|
        0 <= i < a.user_stats@.len() && a.user_stats@[i].user_id == user_id && b.user_stats@
            == a.user_stats@.update(i, stats_entry_of(user_id, stats)) {
        let i = choose|i: int|
            0 <= i < a.user_stats@.len() && a.user_stats@[i].user_id == user_id && b.user_stats@
                == a.user_stats@.update(i, stats_entry_of(user_id, stats));
        assert forall|p: int, q: int| 0 <= p < q < b.user_stats@.len() implies b.user_stats@[p].user_id
            != b.user_stats@[q].user_id by {
            assert(a.user_stats@[p].user_id != a.user_stats@[q].user_id);
        }
        assert forall|p: int| 0 <= p < b.user_stats@.len() implies has_user_id(
            b.users@,
            b.user_stats@[p].user_id,
        ) by {
            if p != i {
                assert(b.user_stats@[p] == a.user_stats@[p]);
            }
        }
    } else {
        assert forall|p: int| 0 <= p < b.user_stats@.len() implies has_user_id(
            b.users@,
            b.user_stats@[p].user_id,
        ) by {
            if p < a.user_stats@.len() {
                assert(b.user_stats@[p] == a.user_stats@[p]);
            }
        }
    }
    // Problem keys stay unique.
    let kept = pkeys_without(a.problem_keys@, user_id);
    let fresh = pkey_entries_of(user_id, stats.problem_keys@);
    lemma_filter_keeps_distinct(
        a.problem_keys@,
        |e: ProblemKeyEntry| e.user_id != user_id,
        |x: ProblemKeyEntry, y: ProblemKeyEntry| !(x.user_id == y.user_id && x.key_char@
            == y.key_char@),
    );
    assert forall|i: int| 0 <= i < kept.len() implies kept[i].user_id != user_id by {
        a.problem_keys@.lemma_filter_pred(|e: ProblemKeyEntry| e.user_id != user_id, i);
    }
    lemma_replace_keeps_distinct(
        kept,
        fresh,
        |e: ProblemKeyEntry| e.user_id,
        user_id,
        |x: ProblemKeyEntry, y: ProblemKeyEntry| !(x.user_id == y.user_id && x.key_char@
            == y.key_char@),
    );
    // Problem-key foreign keys.
    assert forall|i: int| 0 <= i < b.problem_keys@.len() implies has_user_id(
        b.users@,
        b.problem_keys@[i].user_id,
    ) by {
        if i < kept.len() {
            lemma_filter_keeps_pointwise(
                a.problem_keys@,
                |e: ProblemKeyEntry| e.user_id != user_id,
                |e: ProblemKeyEntry| has_user_id(a.users@, e.user_id),
            );
        } else {
            assert(b.problem_keys@[i].user_id == user_id);
        }
    }
}

/// All snippets of other users keep their ids clear of the incoming rows.
pub open spec fn snippets_save_ok(
    olds: Seq<CustomSnippetRow>,
    users: Seq<crate::models::UserProfile>,
    uid: i64,
    rows: Seq<CustomSnippetRow>,
) -> bool {
    &&& snippet_users_ok(rows, users)
    &&& snippet_ids_distinct(rows)
    &&& forall|i: int|
        0 <= i < rows.len() ==> !has_snippet(snippets_without(olds, uid), rows[i].id@)
}

/// Membership in a snippets table with one user's rows removed.
pub proof fn lemma_has_snippet_without(s: Seq<CustomSnippetRow>, uid: i64, id: Seq<char>)
    ensures
        has_snippet(snippets_without(s, uid), id) <==> exists|j: int|
            0 <= j < s.len() && s[j].user_id != uid && s[j].id@ == id,
{
    let p = |e: CustomSnippetRow| e.user_id != uid;
    if exists|j: int| 0 <= j < s.len() && s[j].user_id != uid && s[j].id@ == id {
        let j = choose|j: int| 0 <= j < s.len() && s[j].user_id != uid && s[j].id@ == id;
        s.lemma_filter_contains(p, j);
        let t = s.filter(p);
        assert(t.contains(s[j]));
        let k = choose|k: int| 0 <= k < t.len() && t[k] == s[j];
        assert(has_snippet(t, id));
    }
    if has_snippet(snippets_without(s, uid), id) {
        let t = s.filter(p);
        let k = choose|k: int| 0 <= k < t.len() && t[k].id@ == id;
        s.lemma_filter_pred(p, k);
        assert(t.contains(t[k]));
        s.lemma_filter_contains_rev(p, t[k]);
        let j = choose|j: int| 0 <= j < s.len() && s[j] == t[k];
        assert(s[j].user_id != uid && s[j].id@ == id);
    }
}

/// Well-formedness carries over a full replace of one user's lesson rows.
proof fn lemma_replace_lessons_wf(a: Database, b: Database, user_id: i64, rows: Seq<LessonProgressRow>)
    requires
        a.wf(),
        has_user_id(a.users@, user_id),
        lesson_ids_distinct(rows),
        same_except_lessons(a, b),
        b.lesson_progress@ == lessons_without(a.lesson_progress@, user_id) + lesson_entries_of(
            user_id,
            rows,
        ),
    ensures
        b.wf(),
{
    let kept = lessons_without(a.lesson_progress@, user_id);
    let fresh = lesson_entries_of(user_id, rows);
    lemma_filter_keeps_distinct(
        a.lesson_progress@,
        |e: LessonEntry| e.user_id != user_id,
        |x: LessonEntry, y: LessonEntry| !(x.user_id == y.user_id && x.row.lesson_id@
            == y.row.lesson_id@),
    );
    assert forall|i: int| 0 <= i < kept.len() implies kept[i].user_id != user_id by {
        a.lesson_progress@.lemma_filter_pred(|e: LessonEntry| e.user_id != user_id, i);
    }
    lemma_replace_keeps_distinct(
        kept,
        fresh,
        |e: LessonEntry| e.user_id,
        user_id,
        |x: LessonEntry, y: LessonEntry| !(x.user_id == y.user_id && x.row.lesson_id@
            == y.row.lesson_id@),
    );
    assert forall|i: int| 0 <= i < b.lesson_progress@.len() implies has_user_id(
        b.users@,
        b.lesson_progress@[i].user_id,
    ) by {
        if i < kept.len() {
            lemma_filter_keeps_pointwise(
                a.lesson_progress@,
                |e: LessonEntry| e.user_id != user_id,
                |e: LessonEntry| has_user_id(a.users@, e.user_id),
            );
        } else {
            assert(b.lesson_progress@[i].user_id == user_id);
        }
    }
}

/// Well-formedness carries over a full replace of one user's course rows.
proof fn lemma_replace_courses_wf(a: Database, b: Database, user_id: i64, rows: Seq<CourseProgressRow>)
    requires
        a.wf(),
        has_user_id(a.users@, user_id),
        course_ids_distinct(rows),
        same_except_courses(a, b),
        b.course_progress@ == courses_without(a.course_progress@, user_id) + course_entries_of(
            user_id,
            rows,
        ),
    ensures
        b.wf(),
{
    let kept = courses_without(a.course_progress@, user_id);
    let fresh = course_entries_of(user_id, rows);
    lemma_filter_keeps_distinct(
        a.course_progress@,
        |e: CourseEntry| e.user_id != user_id,
        |x: CourseEntry, y: CourseEntry| !(x.user_id == y.user_id && x.row.course_id@
            == y.row.course_id@),
    );
    assert forall|i: int| 0 <= i < kept.len() implies kept[i].user_id != user_id by {
        a.course_progress@.lemma_filter_pred(|e: CourseEntry| e.user_id != user_id, i);
    }
    lemma_replace_keeps_distinct(
        kept,
        fresh,
        |e: CourseEntry| e.user_id,
        user_id,
        |x: CourseEntry, y: CourseEntry| !(x.user_id == y.user_id && x.row.course_id@
            == y.row.course_id@),
    );
    assert forall|i: int| 0 <= i < b.course_progress@.len() implies has_user_id(
        b.users@,
        b.course_progress@[i].user_id,
    ) by {
        if i < kept.len() {
            lemma_filter_keeps_pointwise(
                a.course_progress@,
                |e: CourseEntry| e.user_id != user_id,
                |e: CourseEntry| has_user_id(a.users@, e.user_id),
            );
        } else {
            assert(b.course_progress@[i].user_id == user_id);
        }
    }
}

/// Well-formedness carries over a full replace of one user's activity rows.
proof fn lemma_replace_activity_wf(a: Database, b: Database, user_id: i64, rows: Seq<DailyActivityRow>)
    requires
        a.wf(),
        has_user_id(a.users@, user_id),
        activity_dates_distinct(rows),
        same_except_activity(a, b),
        b.daily_activity@ == activity_without(a.daily_activity@, user_id) + activity_entries_of(
            user_id,
            rows,
        ),
    ensures
        b.wf(),
{
    let kept = activity_without(a.daily_activity@, user_id);
    let fresh = activity_entries_of(user_id, rows);
    lemma_filter_keeps_distinct(
        a.daily_activity@,
        |e: ActivityEntry| e.user_id != user_id,
        |x: ActivityEntry, y: ActivityEntry| !(x.user_id == y.user_id && x.row.date@
            == y.row.date@),
    );
    assert forall|i: int| 0 <= i < kept.len() implies kept[i].user_id != user_id by {
        a.daily_activity@.lemma_filter_pred(|e: ActivityEntry| e.user_id != user_id, i);
    }
    lemma_replace_keeps_distinct(
        kept,
        fresh,
        |e: ActivityEntry| e.user_id,
        user_id,
        |x: ActivityEntry, y: ActivityEntry| !(x.user_id == y.user_id && x.row.date@
            == y.row.date@),
    );
    assert forall|i: int| 0 <= i < b.daily_activity@.len() implies has_user_id(
        b.users@,
        b.daily_activity@[i].user_id,
    ) by {
        if i < kept.len() {
            lemma_filter_keeps_pointwise(
                a.daily_activity@,
                |e: ActivityEntry| e.user_id != user_id,
                |e: ActivityEntry| has_user_id(a.users@, e.user_id),
            );
        } else {
            assert(b.daily_activity@[i].user_id == user_id);
        }
    }
}

/// Well-formedness carries over a snippet replace for one user.
proof fn lemma_replace_snippets_wf(a: Database, b: Database, user_id: i64, rows: Seq<CustomSnippetRow>)
    requires
        a.wf(),
        snippets_save_ok(a.custom_snippets@, a.users@, user_id, rows),
        same_except_snippets(a, b),
        b.custom_snippets@ == snippets_without(a.custom_snippets@, user_id) + rows,
    ensures
        b.wf(),
{
    let kept = snippets_without(a.custom_snippets@, user_id);
    lemma_filter_keeps_distinct(
        a.custom_snippets@,
        |e: CustomSnippetRow| e.user_id != user_id,
        |x: CustomSnippetRow, y: CustomSnippetRow| x.id@ != y.id@,
    );
    assert forall|i: int, j: int| 0 <= i < j < b.custom_snippets@.len() implies b.custom_snippets@[i].id@
        != b.custom_snippets@[j].id@ by {
        if j < kept.len() {
            assert(kept[i].id@ != kept[j].id@);
        } else if i >= kept.len() {
            assert(rows[i - kept.len()].id@ != rows[j - kept.len()].id@);
        } else {
            // A fresh id equal to a kept id would contradict the clash check.
            if kept[i].id@ == rows[j - kept.len()].id@ {
                assert(kept.contains(kept[i]));
                assert(has_snippet(kept, rows[j - kept.len()].id@));
            }
        }
    }
    assert forall|i: int| 0 <= i < b.custom_snippets@.len() implies has_user_id(
        b.users@,
        b.custom_snippets@[i].user_id,
    ) by {
        if i < kept.len() {
            lemma_filter_keeps_pointwise(
                a.custom_snippets@,
                |e: CustomSnippetRow| e.user_id != user_id,
                |e: CustomSnippetRow| has_user_id(a.users@, e.user_id),
            );
        } else {
            assert(has_user_id(a.users@, rows[i - kept.len()].user_id));
        }
    }
}

impl Database {
    // ── Lesson progress ─────────────────────────────────────────────────

    /// Every lesson-progress row of one user, in stored order.
    pub fn get_all_lesson_progress(&self, user_id: i64) -> (r: Result<
        Vec<LessonProgressRow>,
        StorageError,
    >)
        ensures
            r matches Ok(v) && v@ == lesson_rows_for(self.lesson_progress@, user_id),
    {
        let mut out: Vec<LessonProgressRow> = Vec::new();
        let mut i: usize = 0;
        while i < self.lesson_progress.len()
            invariant
                i <= self.lesson_progress.len(),
                out@ =~= lesson_rows_for(self.lesson_progress@.take(i as int), user_id),
            decreases self.lesson_progress.len() - i,
        {
            if self.lesson_progress[i].user_id == user_id {
                out.push(self.lesson_progress[i].row.clone());
            }
            i = i + 1;
        }
        Ok(out)
    }

    /// Replace the whole lesson-progress set of one user by the given rows.
    /// The caller passes the complete authoritative set; prior rows of this
    /// user are discarded. Fails, changing nothing, when the user is absent
    /// or two rows name the same lesson.
    pub fn save_lesson_progress(&mut self, user_id: i64, progress: &Vec<LessonProgressRow>) -> (r:
        Result<(), StorageError>)
        requires
            old(self).wf(),
        ensures
            final(self).wf(),
            same_except_lessons(*old(self), *final(self)),
            match r {
                Ok(()) => {
                    &&& has_user_id(old(self).users@, user_id)
                    &&& lesson_ids_distinct(progress@)
                    &&& final(self).lesson_progress@ == lessons_without(
                        old(self).lesson_progress@,
                        user_id,
                    ) + lesson_entries_of(user_id, progress@)
                },
                Err(e) => {
                    &&& e == StorageError::ConstraintViolation
                    &&& !(has_user_id(old(self).users@, user_id) && lesson_ids_distinct(progress@))
                    &&& same_lessons(*old(self), *final(self))
                },
            },
    {
        if !self.contains_user(user_id) {
            return Err(StorageError::ConstraintViolation);
        }
        let mut a: usize = 0;
        while a < progress.len()
            invariant
                old(self).wf(),
                *self == *old(self),
                a <= progress@.len(),
                forall|i: int, j: int|
                    0 <= i < j < progress@.len() && i < a ==> progress@[i].lesson_id@
                        != progress@[j].lesson_id@,
            decreases progress.len() - a,
        {
            let mut b: usize = a + 1;
            while b < progress.len()
                invariant
                    old(self).wf(),
                    *self == *old(self),
                    a < progress@.len(),
                    a + 1 <= b <= progress@.len(),
                    forall|j: int|
                        a < j < b ==> progress@[a as int].lesson_id@ != progress@[j].lesson_id@,
                decreases progress.len() - b,
            {
                if progress[a].lesson_id == progress[b].lesson_id {
                    proof {
                        assert(progress@[a as int].lesson_id@ == progress@[b as int].lesson_id@);
                        assert(!lesson_ids_distinct(progress@));
                    }
                    return Err(StorageError::ConstraintViolation);
                }
                b = b + 1;
            }
            a = a + 1;
        }
        remove_lessons_for(&mut self.lesson_progress, user_id);
        let mut k: usize = 0;
        while k < progress.len()
            invariant
                old(self).wf(),
                k <= progress@.len(),
                same_except_lessons(*old(self), *self),
                self.lesson_progress@ =~= lessons_without(old(self).lesson_progress@, user_id)
                    + lesson_entries_of(user_id, progress@.take(k as int)),
            decreases progress.len() - k,
        {
            let e = LessonEntry { user_id, row: progress[k].clone() };
            self.lesson_progress.push(e);
            k = k + 1;
        }
        proof {
            assert(self.lesson_progress@ =~= lessons_without(old(self).lesson_progress@, user_id)
                + lesson_entries_of(user_id, progress@));
            lemma_replace_lessons_wf(*old(self), *self, user_id, progress@);
        }
        Ok(())
    }

    // ── Course progress ─────────────────────────────────────────────────

    /// Every course-progress row of one user, in stored order.
    pub fn get_all_course_progress(&self, user_id: i64) -> (r: Result<
        Vec<CourseProgressRow>,
        StorageError,
    >)
        ensures
            r matches Ok(v) && v@ == course_rows_for(self.course_progress@, user_id),
    {
        let mut out: Vec<CourseProgressRow> = Vec::new();
        let mut i: usize = 0;
        while i < self.course_progress.len()
            invariant
                i <= self.course_progress.len(),
                out@ =~= course_rows_for(self.course_progress@.take(i as int), user_id),
            decreases self.course_progress.len() - i,
        {
            if self.course_progress[i].user_id == user_id {
                out.push(self.course_progress[i].row.clone());
            }
            i = i + 1;
        }
        Ok(out)
    }

    /// Replace the whole course-progress set of one user by the given rows.
    pub fn save_course_progress(&mut self, user_id: i64, progress: &Vec<CourseProgressRow>) -> (r:
        Result<(), StorageError>)
        requires
            old(self).wf(),
        ensures
            final(self).wf(),
            same_except_courses(*old(self), *final(self)),
            match r {
                Ok(()) => {
                    &&& has_user_id(old(self).users@, user_id)
                    &&& course_ids_distinct(progress@)
                    &&& final(self).course_progress@ == courses_without(
                        old(self).course_progress@,
                        user_id,
                    ) + course_entries_of(user_id, progress@)
                },
                Err(e) => {
                    &&& e == StorageError::ConstraintViolation
                    &&& !(has_user_id(old(self).users@, user_id) && course_ids_distinct(progress@))
                    &&& same_courses(*old(self), *final(self))
                },
            },
    {
        if !self.contains_user(user_id) {
            return Err(StorageError::ConstraintViolation);
        }
        let mut a: usize = 0;
        while a < progress.len()
            invariant
                old(self).wf(),
                *self == *old(self),
                a <= progress@.len(),
                forall|i: int, j: int|
                    0 <= i < j < progress@.len() && i < a ==> progress@[i].course_id@
                        != progress@[j].course_id@,
            decreases progress.len() - a,
        {
            let mut b: usize = a + 1;
            while b < progress.len()
                invariant
                    old(self).wf(),
                    *self == *old(self),
                    a < progress@.len(),
                    a + 1 <= b <= progress@.len(),
                    forall|j: int|
                        a < j < b ==> progress@[a as int].course_id@ != progress@[j].course_id@,
                decreases progress.len() - b,
            {
                if progress[a].course_id == progress[b].course_id {
                    proof {
                        assert(progress@[a as int].course_id@ == progress@[b as int].course_id@);
                        assert(!course_ids_distinct(progress@));
                    }
                    return Err(StorageError::ConstraintViolation);
                }
                b = b + 1;
            }
            a = a + 1;
        }
        remove_courses_for(&mut self.course_progress, user_id);
        let mut k: usize = 0;
        while k < progress.len()
            invariant
                old(self).wf(),
                k <= progress@.len(),
                same_except_courses(*old(self), *self),
                self.course_progress@ =~= courses_without(old(self).course_progress@, user_id)
                    + course_entries_of(user_id, progress@.take(k as int)),
            decreases progress.len() - k,
        {
            let e = CourseEntry { user_id, row: progress[k].clone() };
            self.course_progress.push(e);
            k = k + 1;
        }
        proof {
            assert(self.course_progress@ =~= courses_without(old(self).course_progress@, user_id)
                + course_entries_of(user_id, progress@));
            lemma_replace_courses_wf(*old(self), *self, user_id, progress@);
        }
        Ok(())
    }

    /// Delete one course row of one user; absent rows are a no-op.
    pub fn delete_course_progress(&mut self, user_id: i64, course_id: &str) -> (r: Result<
        (),
        StorageError,
    >)
        requires
            old(self).wf(),
        ensures
            final(self).wf(),
            r is Ok,
            same_except_courses(*old(self), *final(self)),
            final(self).course_progress@ == courses_without_one(
                old(self).course_progress@,
                user_id,
                course_id@,
            ),
    {
        let needle = course_id.to_owned();
        let mut kept: Vec<CourseEntry> = Vec::new();
        let mut i: usize = 0;
        while i < self.course_progress.len()
            invariant
                old(self).wf(),
                *self == *old(self),
                needle@ == course_id@,
                i <= self.course_progress.len(),
                kept@ =~= self.course_progress@.take(i as int).filter(
                    |e: CourseEntry| !(e.user_id == user_id && e.row.course_id@ == course_id@),
                ),
            decreases self.course_progress.len() - i,
        {
            if !(self.course_progress[i].user_id == user_id && self.course_progress[i].row.course_id
                == needle) {
                kept.push(self.course_progress[i].clone());
            }
            i = i + 1;
        }
        self.course_progress = kept;
        proof {
            let p = |e: CourseEntry| !(e.user_id == user_id && e.row.course_id@ == course_id@);
            lemma_filter_keeps_distinct(
                old(self).course_progress@,
                p,
                |x: CourseEntry, y: CourseEntry| !(x.user_id == y.user_id && x.row.course_id@
                    == y.row.course_id@),
            );
            lemma_filter_keeps_pointwise(
                old(self).course_progress@,
                p,
                |e: CourseEntry| has_user_id(old(self).users@, e.user_id),
            );
        }
        Ok(())
    }

    /// Delete every course row of one user.
    pub fn delete_all_course_progress(&mut self, user_id: i64) -> (r: Result<(), StorageError>)
        requires
            old(self).wf(),
        ensures
            final(self).wf(),
            r is Ok,
            same_except_courses(*old(self), *final(self)),
            final(self).course_progress@ == courses_without(old(self).course_progress@, user_id),
    {
        remove_courses_for(&mut self.course_progress, user_id);
        proof {
            let p = |e: CourseEntry| e.user_id != user_id;
            lemma_filter_keeps_distinct(
                old(self).course_progress@,
                p,
                |x: CourseEntry, y: CourseEntry| !(x.user_id == y.user_id && x.row.course_id@
                    == y.row.course_id@),
            );
            lemma_filter_keeps_pointwise(
                old(self).course_progress@,
                p,
                |e: CourseEntry| has_user_id(old(self).users@, e.user_id),
            );
        }
        Ok(())
    }

    // ── Custom snippets ─────────────────────────────────────────────────

    /// Every snippet of one user, ordered by creation timestamp.
    pub fn get_snippets(&self, user_id: i64) -> (r: Result<Vec<CustomSnippetRow>, StorageError>)
        ensures
            r matches Ok(v) && v@.to_multiset() == self.custom_snippets@.filter(
                |e: CustomSnippetRow| e.user_id == user_id,
            ).to_multiset() && (forall|k1: int, k2: int|
                0 <= k1 < k2 < v@.len() ==> snippet_le(v@[k1], v@[k2])),
    {
        let mut flt: Vec<CustomSnippetRow> = Vec::new();
        let mut i: usize = 0;
        while i < self.custom_snippets.len()
            invariant
                i <= self.custom_snippets.len(),
                flt@ =~= self.custom_snippets@.take(i as int).filter(
                    |e: CustomSnippetRow| e.user_id == user_id,
                ),
            decreases self.custom_snippets.len() - i,
        {
            if self.custom_snippets[i].user_id == user_id {
                flt.push(self.custom_snippets[i].clone());
            }
            i = i + 1;
        }
        proof {
            assert(self.custom_snippets@.take(self.custom_snippets@.len() as int)
                =~= self.custom_snippets@);
        }
        let mut out: Vec<CustomSnippetRow> = Vec::new();
        let mut a: usize = 0;
        proof {
            assert(flt@.take(0) =~= out@);
        }
        while a < flt.len()
            invariant
                a <= flt@.len(),
                flt@ == self.custom_snippets@.filter(|e: CustomSnippetRow| e.user_id == user_id),
                out@.to_multiset() == flt@.take(a as int).to_multiset(),
                forall|k1: int, k2: int| 0 <= k1 < k2 < out@.len() ==> snippet_le(
                    out@[k1],
                    out@[k2],
                ),
            decreases flt@.len() - a,
        {
            let x = flt[a].clone();
            let ghost gx = flt@[a as int];
            let ghost pre = out@;
            let mut pos: usize = 0;
            while pos < out.len() && crate::order::str_le_exec(
                out[pos].created_at.as_str(),
                x.created_at.as_str(),
            )
                invariant
                    out@ == pre,
                    pos <= out@.len(),
                    x == gx,
                    forall|k: int| 0 <= k < pos ==> snippet_le(#[trigger] out@[k], gx),
                decreases out@.len() - pos,
            {
                pos = pos + 1;
            }
            out.insert(pos, x);
            proof {
                broadcast use vstd::seq_lib::group_to_multiset_ensures;

                crate::order::lemma_insert_to_multiset(pre, pos as int, gx);
                assert(flt@.take(a + 1) =~= flt@.take(a as int).push(gx));
                assert(flt@.take(a as int).push(gx).to_multiset() == flt@.take(
                    a as int,
                ).to_multiset().insert(gx));
                lemma_snippet_sorted_insert(pre, pos as int, gx);
            }
            a = a + 1;
        }
        proof {
            assert(flt@.take(flt@.len() as int) =~= flt@);
        }
        Ok(out)
    }

    /// Replace the whole snippet set of one user by the given rows. Each row
    /// carries its own owner, who must exist; snippet ids are unique across
    /// the whole table.
    pub fn save_snippets(&mut self, user_id: i64, snippets: &Vec<CustomSnippetRow>) -> (r: Result<
        (),
        StorageError,
    >)
        requires
            old(self).wf(),
        ensures
            final(self).wf(),
            same_except_snippets(*old(self), *final(self)),
            match r {
                Ok(()) => {
                    &&& snippets_save_ok(
                        old(self).custom_snippets@,
                        old(self).users@,
                        user_id,
                        snippets@,
                    )
                    &&& final(self).custom_snippets@ == snippets_without(
                        old(self).custom_snippets@,
                        user_id,
                    ) + snippets@
                },
                Err(e) => {
                    &&& e == StorageError::ConstraintViolation
                    &&& !snippets_save_ok(
                        old(self).custom_snippets@,
                        old(self).users@,
                        user_id,
                        snippets@,
                    )
                    &&& same_snippets(*old(self), *final(self))
                },
            },
    {
        // Every incoming row must name an existing owner.
        let mut v: usize = 0;
        while v < snippets.len()
            invariant
                old(self).wf(),
                *self == *old(self),
                v <= snippets@.len(),
                forall|i: int| 0 <= i < v ==> has_user_id(self.users@, snippets@[i].user_id),
            decreases snippets.len() - v,
        {
            if !self.contains_user(snippets[v].user_id) {
                return Err(StorageError::ConstraintViolation);
            }
            v = v + 1;
        }
        // Incoming ids must not collide with each other.
        let mut a: usize = 0;
        while a < snippets.len()
            invariant
                old(self).wf(),
                *self == *old(self),
                a <= snippets@.len(),
                forall|i: int, j: int|
                    0 <= i < j < snippets@.len() && i < a ==> snippets@[i].id@ != snippets@[j].id@,
            decreases snippets.len() - a,
        {
            let mut b: usize = a + 1;
            while b < snippets.len()
                invariant
                    old(self).wf(),
                    *self == *old(self),
                    a < snippets@.len(),
                    a + 1 <= b <= snippets@.len(),
                    forall|j: int| a < j < b ==> snippets@[a as int].id@ != snippets@[j].id@,
                decreases snippets.len() - b,
            {
                if snippets[a].id == snippets[b].id {
                    proof {
                        assert(snippets@[a as int].id@ == snippets@[b as int].id@);
                        assert(!snippet_ids_distinct(snippets@));
                    }
                    return Err(StorageError::ConstraintViolation);
                }
                b = b + 1;
            }
            a = a + 1;
        }
        // Incoming ids must not collide with snippets kept for other users.
        let mut c: usize = 0;
        while c < snippets.len()
            invariant
                old(self).wf(),
                *self == *old(self),
                c <= snippets@.len(),
                forall|i: int|
                    0 <= i < c ==> !has_snippet(
                        snippets_without(self.custom_snippets@, user_id),
                        snippets@[i].id@,
                    ),
            decreases snippets.len() - c,
        {
            let mut d: usize = 0;
            while d < self.custom_snippets.len()
                invariant
                    old(self).wf(),
                    *self == *old(self),
                    c < snippets@.len(),
                    d <= self.custom_snippets@.len(),
                    forall|j: int|
                        0 <= j < d ==> !(self.custom_snippets@[j].user_id != user_id
                            && self.custom_snippets@[j].id@ == snippets@[c as int].id@),
                decreases self.custom_snippets.len() - d,
            {
                if self.custom_snippets[d].user_id != user_id && self.custom_snippets[d].id
                    == snippets[c].id {
                    proof {
                        lemma_has_snippet_without(
                            self.custom_snippets@,
                            user_id,
                            snippets@[c as int].id@,
                        );
                    }
                    return Err(StorageError::ConstraintViolation);
                }
                d = d + 1;
            }
            proof {
                lemma_has_snippet_without(self.custom_snippets@, user_id, snippets@[c as int].id@);
            }
            c = c + 1;
        }
        remove_snippets_for(&mut self.custom_snippets, user_id);
        let mut k: usize = 0;
        while k < snippets.len()
            invariant
                old(self).wf(),
                k <= snippets@.len(),
                same_except_snippets(*old(self), *self),
                self.custom_snippets@ =~= snippets_without(old(self).custom_snippets@, user_id)
                    + snippets@.take(k as int),
            decreases snippets.len() - k,
        {
            self.custom_snippets.push(snippets[k].clone());
            k = k + 1;
        }
        proof {
            assert(self.custom_snippets@ =~= snippets_without(old(self).custom_snippets@, user_id)
                + snippets@);
            lemma_replace_snippets_wf(*old(self), *self, user_id, snippets@);
        }
        Ok(())
    }

    // ── Daily test results ──────────────────────────────────────────────

    /// The whole daily-test-results table, ordered by date, then user id.
    pub fn get_daily_results(&self) -> (r: Result<Vec<DailyTestResultRow>, StorageError>)
        ensures
            r matches Ok(v) && v@.to_multiset() == self.daily_results@.to_multiset() && (forall|
                k1: int,
                k2: int,
            |
                0 <= k1 < k2 < v@.len() ==> daily_le(v@[k1], v@[k2])),
    {
        let mut out: Vec<DailyTestResultRow> = Vec::new();
        let mut i: usize = 0;
        proof {
            assert(self.daily_results@.take(0) =~= out@);
        }
        while i < self.daily_results.len()
            invariant
                i <= self.daily_results@.len(),
                out@.to_multiset() == self.daily_results@.take(i as int).to_multiset(),
                forall|k1: int, k2: int| 0 <= k1 < k2 < out@.len() ==> daily_le(
                    out@[k1],
                    out@[k2],
                ),
            decreases self.daily_results@.len() - i,
        {
            let x = self.daily_results[i].clone();
            let ghost gx = self.daily_results@[i as int];
            let ghost pre = out@;
            let mut pos: usize = 0;
            while pos < out.len() && daily_le_exec(&out[pos], &x)
                invariant
                    out@ == pre,
                    pos <= out@.len(),
                    x == gx,
                    forall|k: int| 0 <= k < pos ==> daily_le(#[trigger] out@[k], gx),
                decreases out@.len() - pos,
            {
                pos = pos + 1;
            }
            out.insert(pos, x);
            proof {
                broadcast use vstd::seq_lib::group_to_multiset_ensures;

                crate::order::lemma_insert_to_multiset(pre, pos as int, gx);
                assert(self.daily_results@.take(i + 1) =~= self.daily_results@.take(
                    i as int,
                ).push(gx));
                assert(self.daily_results@.take(i as int).push(gx).to_multiset()
                    == self.daily_results@.take(i as int).to_multiset().insert(gx));
                lemma_daily_sorted_insert(pre, pos as int, gx);
            }
            i = i + 1;
        }
        proof {
            assert(self.daily_results@.take(self.daily_results@.len() as int)
                =~= self.daily_results@);
        }
        Ok(out)
    }

    /// Replace the whole daily-test-results table (all users) by the given
    /// rows. Each row names its owner, who must exist; (user, date) pairs
    /// are unique.
    pub fn save_daily_results(&mut self, results: &Vec<DailyTestResultRow>) -> (r: Result<
        (),
        StorageError,
    >)
        requires
            old(self).wf(),
        ensures
            final(self).wf(),
            same_except_daily(*old(self), *final(self)),
            match r {
                Ok(()) => {
                    &&& daily_users_ok(results@, old(self).users@)
                    &&& daily_keys_distinct(results@)
                    &&& final(self).daily_results@ == results@
                },
                Err(e) => {
                    &&& e == StorageError::ConstraintViolation
                    &&& !(daily_users_ok(results@, old(self).users@) && daily_keys_distinct(
                        results@,
                    ))
                    &&& same_daily(*old(self), *final(self))
                },
            },
    {
        let mut v: usize = 0;
        while v < results.len()
            invariant
                old(self).wf(),
                *self == *old(self),
                v <= results@.len(),
                forall|i: int| 0 <= i < v ==> has_user_id(self.users@, results@[i].user_id),
            decreases results.len() - v,
        {
            if !self.contains_user(results[v].user_id) {
                return Err(StorageError::ConstraintViolation);
            }
            v = v + 1;
        }
        let mut a: usize = 0;
        while a < results.len()
            invariant
                old(self).wf(),
                *self == *old(self),
                a <= results@.len(),
                forall|i: int, j: int|
                    0 <= i < j < results@.len() && i < a ==> !(results@[i].user_id
                        == results@[j].user_id && results@[i].date@ == results@[j].date@),
            decreases results.len() - a,
        {
            let mut b: usize = a + 1;
            while b < results.len()
                invariant
                    old(self).wf(),
                    *self == *old(self),
                    a < results@.len(),
                    a + 1 <= b <= results@.len(),
                    forall|j: int|
                        a < j < b ==> !(results@[a as int].user_id == results@[j].user_id
                            && results@[a as int].date@ == results@[j].date@),
                decreases results.len() - b,
            {
                if results[a].user_id == results[b].user_id && results[a].date == results[b].date {
                    proof {
                        assert(results@[a as int].date@ == results@[b as int].date@);
                        assert(!daily_keys_distinct(results@));
                    }
                    return Err(StorageError::ConstraintViolation);
                }
                b = b + 1;
            }
            a = a + 1;
        }
        self.daily_results.clear();
        let mut k: usize = 0;
        while k < results.len()
            invariant
                old(self).wf(),
                k <= results@.len(),
                same_except_daily(*old(self), *self),
                self.daily_results@ =~= results@.take(k as int),
            decreases results.len() - k,
        {
            self.daily_results.push(results[k].clone());
            k = k + 1;
        }
        proof {
            assert(self.daily_results@ =~= results@);
        }
        Ok(())
    }

    // ── Daily activity ──────────────────────────────────────────────────

    /// Every activity row of one user, ordered by date.
    pub fn get_activity(&self, user_id: i64) -> (r: Result<Vec<DailyActivityRow>, StorageError>)
        ensures
            r matches Ok(v) && v@.to_multiset() == activity_rows_for(
                self.daily_activity@,
                user_id,
            ).to_multiset() && (forall|k1: int, k2: int|
                0 <= k1 < k2 < v@.len() ==> activity_row_le(v@[k1], v@[k2])),
    {
        let mut flt: Vec<DailyActivityRow> = Vec::new();
        let mut i: usize = 0;
        while i < self.daily_activity.len()
            invariant
                i <= self.daily_activity.len(),
                flt@ =~= activity_rows_for(self.daily_activity@.take(i as int), user_id),
            decreases self.daily_activity.len() - i,
        {
            if self.daily_activity[i].user_id == user_id {
                flt.push(self.daily_activity[i].row.clone());
            }
            i = i + 1;
        }
        proof {
            assert(self.daily_activity@.take(self.daily_activity@.len() as int)
                =~= self.daily_activity@);
        }
        let mut out: Vec<DailyActivityRow> = Vec::new();
        let mut a: usize = 0;
        proof {
            assert(flt@.take(0) =~= out@);
        }
        while a < flt.len()
            invariant
                a <= flt@.len(),
                flt@ == activity_rows_for(self.daily_activity@, user_id),
                out@.to_multiset() == flt@.take(a as int).to_multiset(),
                forall|k1: int, k2: int| 0 <= k1 < k2 < out@.len() ==> activity_row_le(
                    out@[k1],
                    out@[k2],
                ),
            decreases flt@.len() - a,
        {
            let x = flt[a].clone();
            let ghost gx = flt@[a as int];
            let ghost pre = out@;
            let mut pos: usize = 0;
            while pos < out.len() && crate::order::str_le_exec(
                out[pos].date.as_str(),
                x.date.as_str(),
            )
                invariant
                    out@ == pre,
                    pos <= out@.len(),
                    x == gx,
                    forall|k: int| 0 <= k < pos ==> activity_row_le(#[trigger] out@[k], gx),
                decreases out@.len() - pos,
            {
                pos = pos + 1;
            }
            out.insert(pos, x);
            proof {
                broadcast use vstd::seq_lib::group_to_multiset_ensures;

                crate::order::lemma_insert_to_multiset(pre, pos as int, gx);
                assert(flt@.take(a + 1) =~= flt@.take(a as int).push(gx));
                assert(flt@.take(a as int).push(gx).to_multiset() == flt@.take(
                    a as int,
                ).to_multiset().insert(gx));
                lemma_activity_sorted_insert(pre, pos as int, gx);
            }
            a = a + 1;
        }
        proof {
            assert(flt@.take(flt@.len() as int) =~= flt@);
        }
        Ok(out)
    }

    /// Replace the whole activity set of one user by the given rows.
    pub fn save_activity(&mut self, user_id: i64, activity: &Vec<DailyActivityRow>) -> (r: Result<
        (),
        StorageError,
    >)
        requires
            old(self).wf(),
        ensures
            final(self).wf(),
            same_except_activity(*old(self), *final(self)),
            match r {
                Ok(()) => {
                    &&& has_user_id(old(self).users@, user_id)
                    &&& activity_dates_distinct(activity@)
                    &&& final(self).daily_activity@ == activity_without(
                        old(self).daily_activity@,
                        user_id,
                    ) + activity_entries_of(user_id, activity@)
                },
                Err(e) => {
                    &&& e == StorageError::ConstraintViolation
                    &&& !(has_user_id(old(self).users@, user_id) && activity_dates_distinct(
                        activity@,
                    ))
                    &&& same_activity(*old(self), *final(self))
                },
            },
    {
        if !self.contains_user(user_id) {
            return Err(StorageError::ConstraintViolation);
        }
        let mut a: usize = 0;
        while a < activity.len()
            invariant
                old(self).wf(),
                *self == *old(self),
                a <= activity@.len(),
                forall|i: int, j: int|
                    0 <= i < j < activity@.len() && i < a ==> activity@[i].date@
                        != activity@[j].date@,
            decreases activity.len() - a,
        {
            let mut b: usize = a + 1;
            while b < activity.len()
                invariant
                    old(self).wf(),
                    *self == *old(self),
                    a < activity@.len(),
                    a + 1 <= b <= activity@.len(),
                    forall|j: int| a < j < b ==> activity@[a as int].date@ != activity@[j].date@,
                decreases activity.len() - b,
            {
                if activity[a].date == activity[b].date {
                    proof {
                        assert(activity@[a as int].date@ == activity@[b as int].date@);
                        assert(!activity_dates_distinct(activity@));
                    }
                    return Err(StorageError::ConstraintViolation);
                }
                b = b + 1;
            }
            a = a + 1;
        }
        remove_activity_for(&mut self.daily_activity, user_id);
        let mut k: usize = 0;
        while k < activity.len()
            invariant
                old(self).wf(),
                k <= activity@.len(),
                same_except_activity(*old(self), *self),
                self.daily_activity@ =~= activity_without(old(self).daily_activity@, user_id)
                    + activity_entries_of(user_id, activity@.take(k as int)),
            decreases activity.len() - k,
        {
            let e = ActivityEntry { user_id, row: activity[k].clone() };
            self.daily_activity.push(e);
            k = k + 1;
        }
        proof {
            assert(self.daily_activity@ =~= activity_without(old(self).daily_activity@, user_id)
                + activity_entries_of(user_id, activity@));
            lemma_replace_activity_wf(*old(self), *self, user_id, activity@);
        }
        Ok(())
    }

    /// Delete every activity row of one user.
    pub fn delete_activity(&mut self, user_id: i64) -> (r: Result<(), StorageError>)
        requires
            old(self).wf(),
        ensures
            final(self).wf(),
            r is Ok,
            same_except_activity(*old(self), *final(self)),
            final(self).daily_activity@ == activity_without(old(self).daily_activity@, user_id),
    {
        remove_activity_for(&mut self.daily_activity, user_id);
        proof {
            let p = |e: ActivityEntry| e.user_id != user_id;
            lemma_filter_keeps_distinct(
                old(self).daily_activity@,
                p,
                |x: ActivityEntry, y: ActivityEntry| !(x.user_id == y.user_id && x.row.date@
                    == y.row.date@),
            );
            lemma_filter_keeps_pointwise(
                old(self).daily_activity@,
                p,
                |e: ActivityEntry| has_user_id(old(self).users@, e.user_id),
            );
        }
        Ok(())
    }
}

} // verus!
