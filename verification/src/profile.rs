//! A profile: everything the store holds of one user, with the operations that record,
//! derive and reconcile it.
//!
//! What depends on the time or on chance comes in as an argument: a `Moment` and fresh
//! identifiers. Every operation either takes effect as a whole or leaves the profile as it
//! was.

use crate::achievement::{Achievement, AchievementType, AchievementView};
use crate::settings::{last_written, lemma_settings_reflect_incoming};
use crate::aggregate::{
    active_dates, active_dates_ascending, active_dates_descending, book_session, book_sessions,
    booked, booked_all, exceeds, heatmap, is_ordered, lemma_booked_all, sessions_from, heatmap_since, ledger_seconds, lemma_booked_keeps_order, lemma_booked_sums, ordered,
    rows_between, session_date, stats_between,
};
use crate::calendar::Moment;
use crate::order::{sort, Ranked};
use crate::text::precedes;
use crate::reconcile::{
    all_owned, clash_free, find_clash, is_clash_free, lemma_clash_free_push,
    lemma_merge_repeatable, lemma_merged_clash_free, lemma_merged_extends, lemma_merged_owned,
    merge, merged, owned, Record,
};
use crate::rules::{newly_earned, newly_earned_of, StatsSnapshot};
use crate::session::{
    CreateFocusSessionRequest, CreateFocusSessionRequestView, DailyStats, DailyStatsView,
    sessions_seconds, FocusSession, FocusSessionView, HeatmapData, UserStats,
};
use crate::settings::{
    apply_settings, get_setting, keys_are_distinct, keys_distinct, lemma_applied_keeps_keys_distinct, lemma_key_index,
    lemma_put_keeps_keys_distinct, lemma_settings_repeatable, put_setting, remove_setting,
    setting_put, setting_removed, setting_value, settings_applied, SettingEntry, SettingEntryView,
};
use crate::snapshot::{import_account, ExportData, ExportDataView, ImportResult};
use crate::update::{task_after, task_request_is_empty};
use crate::streak::{current_streak, current_streak_of, longest_streak, longest_streak_of, InvalidDate};
use crate::task::{
    CreateTaskRequest, CreateTaskRequestView, Task, TaskView, UpdateTaskRequest,
    UpdateTaskRequestView,
};
use crate::user::{new_user_of, User, UserView};
use vstd::prelude::*;

verus! {

/// Everything the store holds of one user.
#[derive(Debug)]
pub struct Profile {
    user: User,
    sessions: Vec<FocusSession>,
    tasks: Vec<Task>,
    achievements: Vec<Achievement>,
    settings: Vec<SettingEntry>,
    daily_stats: Vec<DailyStats>,
}

/// What a `Profile` holds, as plain values.
pub struct ProfileView {
    pub user: UserView,
    pub sessions: Seq<FocusSessionView>,
    pub tasks: Seq<TaskView>,
    pub achievements: Seq<AchievementView>,
    pub settings: Seq<SettingEntryView>,
    pub daily_stats: Seq<DailyStatsView>,
}

impl DeepView for Profile {
    type V = ProfileView;

    closed spec fn deep_view(&self) -> ProfileView {
        ProfileView {
            user: self.user.deep_view(),
            sessions: self.sessions.deep_view(),
            tasks: self.tasks.deep_view(),
            achievements: self.achievements.deep_view(),
            settings: self.settings.deep_view(),
            daily_stats: self.daily_stats.deep_view(),
        }
    }
}

/// Why an operation on a profile did not take effect.
#[derive(Debug, Clone, Copy, PartialEq, Eq, Structural)]
pub enum EngineError {
    /// The request names another user.
    WrongUser,
    /// The duration of the session is negative.
    NegativeDuration,
    /// The start time of the session is shorter than a date.
    ShortTimestamp,
    /// A sum or a count does not fit its field.
    Overflow,
    /// The user has unlocked the achievement already.
    AlreadyUnlocked,
    /// There is no row with the identifier.
    NotFound,
    /// A row bears the identifier already.
    DuplicateId,
}

impl EngineError {
    /// The failure in words.
    pub open spec fn message_text(self) -> Seq<char> {
        match self {
            EngineError::WrongUser => "The request names another user"@,
            EngineError::NegativeDuration => "The duration of a session cannot be negative"@,
            EngineError::ShortTimestamp => "The start time of a session must begin with a date"@,
            EngineError::Overflow => "A total exceeds what the store can hold"@,
            EngineError::AlreadyUnlocked => "Achievement already unlocked"@,
            EngineError::NotFound => "Query returned no rows"@,
            EngineError::DuplicateId => "The identifier is taken"@,
        }
    }

    /// The failure in words.
    pub fn message(&self) -> (r: &'static str)
        ensures
            r@ == self.message_text(),
    {
        match self {
            EngineError::WrongUser => "The request names another user",
            EngineError::NegativeDuration => "The duration of a session cannot be negative",
            EngineError::ShortTimestamp => "The start time of a session must begin with a date",
            EngineError::Overflow => "A total exceeds what the store can hold",
            EngineError::AlreadyUnlocked => "Achievement already unlocked",
            EngineError::NotFound => "Query returned no rows",
            EngineError::DuplicateId => "The identifier is taken",
        }
    }
}

/// Whether a profile is in order: its sessions, tasks and unlock records belong to its user
/// and no two of a kind bear the same identifier, the user has at most one unlock record of
/// each type and one setting under each key, and the rollups stand in the order of their
/// dates.
pub open spec fn well_formed(v: ProfileView) -> bool {
    &&& owned::<FocusSession>(v.sessions, v.user.id)
    &&& owned::<Task>(v.tasks, v.user.id)
    &&& owned::<Achievement>(v.achievements, v.user.id)
    &&& clash_free::<FocusSession>(v.sessions)
    &&& clash_free::<Task>(v.tasks)
    &&& clash_free::<Achievement>(v.achievements)
    &&& keys_distinct(v.settings)
    &&& ordered(v.daily_stats)
}

/// The seconds by which the rollups exceed the sessions. Recording a session and importing a
/// snapshot both leave it as it is: it is 0 for a profile that began empty.
pub open spec fn balance(v: ProfileView) -> int {
    ledger_seconds(v.daily_stats) - sessions_seconds(v.sessions)
}

impl EngineError {
    /// The failure of an operation that a failure of the ledger causes.
    pub fn of_ledger(e: crate::aggregate::LedgerError) -> (r: EngineError)
        ensures
            r == ledger_fault(e),
    {
        match e {
            crate::aggregate::LedgerError::NegativeDuration => EngineError::NegativeDuration,
            crate::aggregate::LedgerError::ShortTimestamp => EngineError::ShortTimestamp,
            crate::aggregate::LedgerError::Overflow => EngineError::Overflow,
        }
    }
}

/// The failure of an operation that a failure of the ledger causes.
pub open spec fn ledger_fault(e: crate::aggregate::LedgerError) -> EngineError {
    match e {
        crate::aggregate::LedgerError::NegativeDuration => EngineError::NegativeDuration,
        crate::aggregate::LedgerError::ShortTimestamp => EngineError::ShortTimestamp,
        crate::aggregate::LedgerError::Overflow => EngineError::Overflow,
    }
}

/// Why a session cannot be recorded, if it cannot.
pub open spec fn record_fault(
    v: ProfileView,
    id: Seq<char>,
    request: CreateFocusSessionRequestView,
) -> Option<EngineError> {
    if request.user_id != v.user.id {
        Some(EngineError::WrongUser)
    } else if exists|i: int| 0 <= i < v.sessions.len() && (#[trigger] v.sessions[i]).id == id {
        Some(EngineError::DuplicateId)
    } else if request.duration_seconds < 0 {
        Some(EngineError::NegativeDuration)
    } else if session_date(request.started_at) is None {
        Some(EngineError::ShortTimestamp)
    } else if exceeds(
        v.daily_stats,
        session_date(request.started_at)->0,
        request.duration_seconds,
    ) {
        Some(EngineError::Overflow)
    } else {
        None
    }
}

/// The session that a request describes, under the given identifier and creation time.
pub open spec fn session_of(
    id: Seq<char>,
    request: CreateFocusSessionRequestView,
    created_at: Seq<char>,
) -> FocusSessionView {
    FocusSessionView {
        id,
        user_id: request.user_id,
        duration_seconds: request.duration_seconds,
        started_at: request.started_at,
        ended_at: request.ended_at,
        category: request.category,
        notes: request.notes,
        created_at,
    }
}

impl Profile {
    /// Whether the profile is in order.
    pub open spec fn wf(&self) -> bool {
        well_formed(self.deep_view())
    }

    /// The profile of a user of whom nothing is stored yet.
    pub fn new(user: User) -> (r: Profile)
        ensures
            r.wf(),
            r.deep_view() == (ProfileView {
                user: user.deep_view(),
                sessions: Seq::empty(),
                tasks: Seq::empty(),
                achievements: Seq::empty(),
                settings: Seq::empty(),
                daily_stats: Seq::empty(),
            }),
            balance(r.deep_view()) == 0,
    {
        let r = Profile {
            user,
            sessions: Vec::new(),
            tasks: Vec::new(),
            achievements: Vec::new(),
            settings: Vec::new(),
            daily_stats: Vec::new(),
        };
        assert(r.sessions.deep_view() =~= Seq::empty());
        assert(r.tasks.deep_view() =~= Seq::empty());
        assert(r.achievements.deep_view() =~= Seq::empty());
        assert(r.settings.deep_view() =~= Seq::empty());
        assert(r.daily_stats.deep_view() =~= Seq::empty());
        r
    }

    /// The profile that holds the given rows, where they are in order: every session, task
    /// and unlock record belongs to the user, no two of a kind bear the same identifier, no
    /// two unlock records are of the same type, no two settings share a key, and the rollups
    /// stand in the order of their dates.
    pub fn assemble(
        user: User,
        sessions: Vec<FocusSession>,
        tasks: Vec<Task>,
        achievements: Vec<Achievement>,
        settings: Vec<SettingEntry>,
        daily_stats: Vec<DailyStats>,
    ) -> (r: Option<Profile>)
        ensures
            ({
                let parts = ProfileView {
                    user: user.deep_view(),
                    sessions: sessions.deep_view(),
                    tasks: tasks.deep_view(),
                    achievements: achievements.deep_view(),
                    settings: settings.deep_view(),
                    daily_stats: daily_stats.deep_view(),
                };
                match r {
                    Some(profile) => well_formed(parts) && profile.deep_view() == parts,
                    None => !well_formed(parts),
                }
            }),
    {
        let in_order = all_owned(&sessions, user.id.as_str()) && all_owned(
            &tasks,
            user.id.as_str(),
        ) && all_owned(&achievements, user.id.as_str()) && is_clash_free(&sessions)
            && is_clash_free(&tasks) && is_clash_free(&achievements) && keys_are_distinct(
            &settings,
        ) && is_ordered(&daily_stats);
        if in_order {
            Some(Profile { user, sessions, tasks, achievements, settings, daily_stats })
        } else {
            None
        }
    }

    /// The user.
    pub fn user(&self) -> (r: &User)
        ensures
            r.deep_view() == self.deep_view().user,
    {
        &self.user
    }

    /// The sessions, in the order in which they came in.
    pub fn sessions(&self) -> (r: &Vec<FocusSession>)
        ensures
            r.deep_view() == self.deep_view().sessions,
    {
        &self.sessions
    }

    /// The tasks, in the order in which they came in.
    pub fn tasks(&self) -> (r: &Vec<Task>)
        ensures
            r.deep_view() == self.deep_view().tasks,
    {
        &self.tasks
    }

    /// The unlock records, in the order in which they came in.
    pub fn achievements(&self) -> (r: &Vec<Achievement>)
        ensures
            r.deep_view() == self.deep_view().achievements,
    {
        &self.achievements
    }

    /// The settings.
    pub fn settings(&self) -> (r: &Vec<SettingEntry>)
        ensures
            r.deep_view() == self.deep_view().settings,
    {
        &self.settings
    }

    /// The rollups, in the order of their dates.
    pub fn daily_stats(&self) -> (r: &Vec<DailyStats>)
        ensures
            r.deep_view() == self.deep_view().daily_stats,
    {
        &self.daily_stats
    }

    /// Records a focus session under the given identifier: books it on the date on which it
    /// started and keeps it. Both happen, or neither. An identifier that a session bears
    /// already is refused.
    pub fn record_session(
        &mut self,
        id: String,
        request: CreateFocusSessionRequest,
        moment: &Moment,
    ) -> (r: Result<FocusSession, EngineError>)
        requires
            old(self).wf(),
        ensures
            final(self).wf(),
            match r {
                Ok(session) => {
                    &&& record_fault(old(self).deep_view(), id@, request.deep_view()) is None
                    &&& session.deep_view() == session_of(id@, request.deep_view(), moment.timestamp@)
                    &&& final(self).deep_view() == (ProfileView {
                        sessions: old(self).deep_view().sessions.push(session.deep_view()),
                        daily_stats: booked(
                            old(self).deep_view().daily_stats,
                            session_date(request.started_at@)->0,
                            request.duration_seconds as int,
                        ),
                        ..old(self).deep_view()
                    })
                    &&& balance(final(self).deep_view()) == balance(old(self).deep_view())
                },
                Err(e) => {
                    &&& record_fault(old(self).deep_view(), id@, request.deep_view()) == Some(e)
                    &&& final(self).deep_view() == old(self).deep_view()
                },
            },
    {
        if request.user_id != self.user.id {
            return Err(EngineError::WrongUser);
        }
        let ghost before = self.deep_view();
        let ghost wanted = request.deep_view();
        let session = FocusSession::from_request(id, request, moment.timestamp.clone());
        if find_clash(&self.sessions, &session) {
            proof {
                let i = choose|i: int|
                    0 <= i < before.sessions.len() && FocusSession::clash(
                        #[trigger] before.sessions[i],
                        session.deep_view(),
                    );
                assert(before.sessions[i].id == id@);
            }
            return Err(EngineError::DuplicateId);
        }
        assert forall|i: int| 0 <= i < before.sessions.len() implies (
        #[trigger] before.sessions[i]).id != id@ by {
            assert(!FocusSession::clash(before.sessions[i], session.deep_view()));
        }
        match book_session(
            &mut self.daily_stats,
            session.started_at.as_str(),
            session.duration_seconds,
        ) {
            Ok(()) => {},
            Err(e) => {
                return Err(EngineError::of_ledger(e));
            },
        }
        self.sessions.push(session.clone());
        proof {
            let date = session_date(wanted.started_at)->0;
            let duration = wanted.duration_seconds;
            lemma_booked_keeps_order(before.daily_stats, date, duration);
            lemma_booked_sums(before.daily_stats, date, duration);
            lemma_clash_free_push::<FocusSession>(before.sessions, session.deep_view());
            assert(self.sessions.deep_view() =~= before.sessions.push(session.deep_view()));
            assert(self.sessions.deep_view().drop_last() =~= before.sessions);
        }
        Ok(session)
    }
}

/// The seconds of the longest session, or 0 where there is none.
pub open spec fn longest_session(sessions: Seq<FocusSessionView>) -> int
    decreases sessions.len(),
{
    if sessions.len() == 0 {
        0
    } else if sessions.len() == 1 {
        sessions.last().duration_seconds
    } else if longest_session(sessions.drop_last()) >= sessions.last().duration_seconds {
        longest_session(sessions.drop_last())
    } else {
        sessions.last().duration_seconds
    }
}

/// The number of completed tasks.
pub open spec fn completed_count(tasks: Seq<TaskView>) -> int
    decreases tasks.len(),
{
    if tasks.len() == 0 {
        0
    } else if tasks.last().completed {
        completed_count(tasks.drop_last()) + 1
    } else {
        completed_count(tasks.drop_last())
    }
}

/// The types of the unlock records, in their order.
pub open spec fn unlocked_types(achievements: Seq<AchievementView>) -> Seq<AchievementType> {
    Seq::new(achievements.len(), |i: int| achievements[i].achievement_type)
}

/// Whether a number fits a field of the summary.
pub open spec fn fits(n: int) -> bool {
    i64::MIN <= n <= i64::MAX
}

/// Why a summary cannot be given.
pub enum StatsFault {
    /// A sum or a count does not fit its field.
    Overflow,
    /// The active date at the index, in the order of the scan that met it, is no date.
    BadDate(int),
}

/// Why a summary could not be given.
#[derive(Debug)]
pub enum StatsError {
    /// A sum or a count does not fit its field.
    Overflow,
    /// A scan for a streak met a text that is no date.
    InvalidDate(InvalidDate),
}

/// The summary of a profile, given the texts of today's and yesterday's date. The seconds
/// and the number of sessions come from the sessions, the streaks from the dates of the
/// rollups that hold focus time.
pub open spec fn stats_of(v: ProfileView, today: Seq<char>, yesterday: Seq<char>) -> Result<
    UserStats,
    StatsFault,
> {
    let dates = active_dates(v.daily_stats);
    if !fits(sessions_seconds(v.sessions)) || !fits(v.sessions.len() as int) || !fits(
        completed_count(v.tasks),
    ) {
        Err(StatsFault::Overflow)
    } else {
        match current_streak_of(dates.reverse(), today, yesterday) {
            Err(index) => Err(StatsFault::BadDate(index)),
            Ok(current) => match longest_streak_of(dates) {
                Err(index) => Err(StatsFault::BadDate(index)),
                Ok(longest) => Ok(
                    UserStats {
                        total_focus_time: sessions_seconds(v.sessions) as i64,
                        total_sessions: v.sessions.len() as i64,
                        current_streak: current as i64,
                        longest_streak: longest as i64,
                        tasks_completed: completed_count(v.tasks) as i64,
                    },
                ),
            },
        }
    }
}

/// Whether an outcome of the library is the outcome that the definition gives.
pub open spec fn stats_agree(r: Result<UserStats, StatsError>, expected: Result<UserStats, StatsFault>) -> bool {
    match (r, expected) {
        (Ok(a), Ok(b)) => a == b,
        (Err(StatsError::Overflow), Err(StatsFault::Overflow)) => true,
        (Err(StatsError::InvalidDate(e)), Err(StatsFault::BadDate(index))) => e.index == index,
        _ => false,
    }
}

/// The figures that the achievement rules look at, given the texts of today's and
/// yesterday's date. A figure that cannot be had counts as 0, the seconds and the number of
/// sessions together.
pub open spec fn figures_of(v: ProfileView, today: Seq<char>, yesterday: Seq<char>) -> StatsSnapshot {
    let dates = active_dates(v.daily_stats);
    let countable = fits(sessions_seconds(v.sessions)) && fits(v.sessions.len() as int);
    StatsSnapshot {
        total_focus_seconds: if countable {
            sessions_seconds(v.sessions) as i64
        } else {
            0
        },
        total_sessions: if countable {
            v.sessions.len() as i64
        } else {
            0
        },
        max_session_seconds: longest_session(v.sessions) as i64,
        current_streak: match current_streak_of(dates.reverse(), today, yesterday) {
            Ok(current) => current as i64,
            Err(_) => 0,
        },
        tasks_completed: if fits(completed_count(v.tasks)) {
            completed_count(v.tasks) as i64
        } else {
            0
        },
    }
}

/// Adds up the seconds of the sessions, where the sum fits.
pub fn total_seconds(sessions: &Vec<FocusSession>) -> (r: Option<i64>)
    ensures
        r == (if fits(sessions_seconds(sessions.deep_view())) {
            Some(sessions_seconds(sessions.deep_view()) as i64)
        } else {
            None
        }),
{
    let mut sum: i128 = 0;
    let mut i: usize = 0;
    assert(sessions.deep_view().take(0) =~= Seq::empty());
    while i < sessions.len()
        invariant
            i <= sessions.len(),
            sum == sessions_seconds(sessions.deep_view().take(i as int)),
            -(i as int) * 0x8000_0000_0000_0000 <= sum <= (i as int) * 0x8000_0000_0000_0000,
        decreases sessions.len() - i,
    {
        let ghost next = sessions.deep_view().take(i + 1);
        assert(next.last() == sessions[i as int].deep_view());
        assert(next.drop_last() =~= sessions.deep_view().take(i as int));
        assert((i as int) * 0x8000_0000_0000_0000 <= 0xffff_ffff_ffff_ffff
            * 0x8000_0000_0000_0000) by (nonlinear_arith)
            requires
                0 <= i <= 0xffff_ffff_ffff_ffff,
        ;
        sum = sum + sessions[i].duration_seconds as i128;
        i = i + 1;
    }
    assert(sessions.deep_view().take(i as int) =~= sessions.deep_view());
    if sum < i64::MIN as i128 || sum > i64::MAX as i128 {
        None
    } else {
        Some(sum as i64)
    }
}

/// The seconds of the longest session, or 0 where there is none.
pub fn longest_session_seconds(sessions: &Vec<FocusSession>) -> (r: i64)
    ensures
        r == longest_session(sessions.deep_view()),
{
    if sessions.len() == 0 {
        return 0;
    }
    let mut best: i64 = sessions[0].duration_seconds;
    let mut i: usize = 1;
    assert(sessions.deep_view().take(1).drop_last() =~= Seq::empty());
    assert(sessions.deep_view().take(1).last() == sessions[0].deep_view());
    while i < sessions.len()
        invariant
            1 <= i <= sessions.len(),
            best == longest_session(sessions.deep_view().take(i as int)),
        decreases sessions.len() - i,
    {
        let ghost next = sessions.deep_view().take(i + 1);
        assert(next.last() == sessions[i as int].deep_view());
        assert(next.drop_last() =~= sessions.deep_view().take(i as int));
        if sessions[i].duration_seconds > best {
            best = sessions[i].duration_seconds;
        }
        i = i + 1;
    }
    assert(sessions.deep_view().take(i as int) =~= sessions.deep_view());
    best
}

/// Counts the completed tasks.
pub fn count_completed(tasks: &Vec<Task>) -> (r: usize)
    ensures
        r == completed_count(tasks.deep_view()),
{
    let mut count: usize = 0;
    let mut i: usize = 0;
    assert(tasks.deep_view().take(0) =~= Seq::empty());
    while i < tasks.len()
        invariant
            i <= tasks.len(),
            count <= i,
            count == completed_count(tasks.deep_view().take(i as int)),
        decreases tasks.len() - i,
    {
        let ghost next = tasks.deep_view().take(i + 1);
        assert(next.last() == tasks[i as int].deep_view());
        assert(next.drop_last() =~= tasks.deep_view().take(i as int));
        if tasks[i].completed {
            count = count + 1;
        }
        i = i + 1;
    }
    assert(tasks.deep_view().take(i as int) =~= tasks.deep_view());
    count
}

/// The types of the unlock records, in their order.
pub fn unlocked_kinds(achievements: &Vec<Achievement>) -> (r: Vec<AchievementType>)
    ensures
        r@ == unlocked_types(achievements.deep_view()),
{
    let mut out: Vec<AchievementType> = Vec::new();
    let mut i: usize = 0;
    while i < achievements.len()
        invariant
            i <= achievements.len(),
            out.len() == i,
            forall|j: int| 0 <= j < i ==> out[j] == achievements[j].achievement_type,
        decreases achievements.len() - i,
    {
        out.push(achievements[i].achievement_type);
        i = i + 1;
    }
    assert(out@ =~= unlocked_types(achievements.deep_view()));
    out
}

/// The number as a field of the summary, where it fits.
fn narrowed(n: usize) -> (r: Option<i64>)
    ensures
        r == (if fits(n as int) {
            Some(n as i64)
        } else {
            None
        }),
{
    if n as u64 > 0x7fff_ffff_ffff_ffff {
        None
    } else {
        Some(n as i64)
    }
}

impl Profile {
    /// The summary of the user's activity, given the texts of today's and yesterday's
    /// date. The longest streak is never shorter than the current one.
    pub fn compute_stats(&self, today: &str, yesterday: &str) -> (r: Result<UserStats, StatsError>)
        ensures
            stats_agree(r, stats_of(self.deep_view(), today@, yesterday@)),
            r is Ok ==> r->Ok_0.longest_streak >= r->Ok_0.current_streak,
    {
        proof {
            let dates = active_dates(self.deep_view().daily_stats);
            if longest_streak_of(dates) is Ok && current_streak_of(
                dates.reverse(),
                today@,
                yesterday@,
            ) is Ok {
                crate::streak::lemma_longest_at_least_current(dates, today@, yesterday@);
            }
        }
        let total = total_seconds(&self.sessions);
        let count = narrowed(self.sessions.len());
        let completed = narrowed(count_completed(&self.tasks));
        let descending = active_dates_descending(&self.daily_stats);
        let ascending = active_dates_ascending(&self.daily_stats);
        match (total, count, completed) {
            (Some(total_focus_time), Some(total_sessions), Some(tasks_completed)) => {
                let current_streak = match current_streak(&descending, today, yesterday) {
                    Ok(n) => n,
                    Err(e) => {
                        return Err(StatsError::InvalidDate(e));
                    },
                };
                let longest_streak = match longest_streak(&ascending) {
                    Ok(n) => n,
                    Err(e) => {
                        return Err(StatsError::InvalidDate(e));
                    },
                };
                Ok(
                    UserStats {
                        total_focus_time,
                        total_sessions,
                        current_streak,
                        longest_streak,
                        tasks_completed,
                    },
                )
            },
            _ => Err(StatsError::Overflow),
        }
    }

    /// The figures that the achievement rules look at, given the texts of today's and
    /// yesterday's date.
    pub fn figures(&self, today: &str, yesterday: &str) -> (r: StatsSnapshot)
        ensures
            r == figures_of(self.deep_view(), today@, yesterday@),
    {
        let total = total_seconds(&self.sessions);
        let count = narrowed(self.sessions.len());
        let (total_focus_seconds, total_sessions) = match (total, count) {
            (Some(total), Some(count)) => (total, count),
            _ => (0, 0),
        };
        let descending = active_dates_descending(&self.daily_stats);
        let current_streak = match current_streak(&descending, today, yesterday) {
            Ok(n) => n,
            Err(_) => 0,
        };
        let tasks_completed = match narrowed(count_completed(&self.tasks)) {
            Some(n) => n,
            None => 0,
        };
        StatsSnapshot {
            total_focus_seconds,
            total_sessions,
            max_session_seconds: longest_session_seconds(&self.sessions),
            current_streak,
            tasks_completed,
        }
    }

    /// The heatmap of the dates from `cutoff` on: each date with its minutes of focus.
    pub fn heatmap_since(&self, cutoff: &str) -> (r: Vec<HeatmapData>)
        ensures
            r.deep_view() == heatmap_since(self.deep_view().daily_stats, cutoff@),
    {
        heatmap(&self.daily_stats, cutoff)
    }

    /// The heatmap of the 365 days that end at the given moment.
    pub fn compute_heatmap(&self, moment: &Moment) -> (r: Vec<HeatmapData>)
        ensures
            r.deep_view() == heatmap_since(self.deep_view().daily_stats, moment.year_ago@),
    {
        heatmap(&self.daily_stats, moment.year_ago.as_str())
    }

    /// The rollups of the dates from `first` to `last`, both included.
    pub fn daily_stats_between(&self, first: &str, last: &str) -> (r: Vec<DailyStats>)
        ensures
            r.deep_view() == rows_between(self.deep_view().daily_stats, first@, last@),
    {
        stats_between(&self.daily_stats, first, last)
    }
}

/// The record of an unlock of a type for a user at a time: it carries no metadata.
pub open spec fn unlock_record(
    id: Seq<char>,
    user_id: Seq<char>,
    kind: AchievementType,
    now: Seq<char>,
) -> AchievementView {
    AchievementView { id, user_id, achievement_type: kind, unlocked_at: now, metadata: None }
}

/// Whether an unlock record of the table bears the identifier.
pub open spec fn bears(table: Seq<AchievementView>, id: Seq<char>) -> bool {
    exists|i: int| 0 <= i < table.len() && (#[trigger] table[i]).id == id
}

/// The length of the longest identifier among the unlock records.
pub open spec fn longest_id(table: Seq<AchievementView>) -> nat
    decreases table.len(),
{
    if table.len() == 0 {
        0
    } else if longest_id(table.drop_last()) >= table.last().id.len() {
        longest_id(table.drop_last())
    } else {
        table.last().id.len()
    }
}

proof fn lemma_longest_id(table: Seq<AchievementView>, i: int)
    requires
        0 <= i < table.len(),
    ensures
        table[i].id.len() <= longest_id(table),
    decreases table.len(),
{
    if i < table.len() - 1 {
        lemma_longest_id(table.drop_last(), i);
    }
}

/// Why an achievement cannot be unlocked under an identifier, if it cannot.
pub open spec fn unlock_fault(v: ProfileView, id: Seq<char>, kind: AchievementType) -> Option<
    EngineError,
> {
    if unlocked_types(v.achievements).contains(kind) {
        Some(EngineError::AlreadyUnlocked)
    } else if bears(v.achievements, id) {
        Some(EngineError::DuplicateId)
    } else {
        None
    }
}

/// Tells whether an unlock record of the table bears the identifier.
pub fn is_borne(table: &Vec<Achievement>, id: &str) -> (r: bool)
    ensures
        r == bears(table.deep_view(), id@),
{
    let mut i: usize = 0;
    while i < table.len()
        invariant
            i <= table.len(),
            forall|j: int| 0 <= j < i ==> (#[trigger] table.deep_view()[j]).id != id@,
        decreases table.len() - i,
    {
        assert(table.deep_view()[i as int] == table[i as int].deep_view());
        if *table[i].id.as_str() == *id {
            return true;
        }
        i = i + 1;
    }
    false
}

/// An identifier that no unlock record of the table bears: the one drawn, made longer by a
/// plus sign for as long as a record bears it.
pub fn free_identifier(drawn: String, table: &Vec<Achievement>) -> (r: String)
    ensures
        !bears(table.deep_view(), r@),
{
    let mut id = drawn;
    loop
        invariant
            true,
        ensures
            !bears(table.deep_view(), id@),
        decreases longest_id(table.deep_view()) + 1 - id@.len(),
    {
        if !is_borne(table, id.as_str()) {
            break;
        }
        proof {
            let i = choose|i: int|
                0 <= i < table.deep_view().len() && (#[trigger] table.deep_view()[i]).id == id@;
            lemma_longest_id(table.deep_view(), i);
            reveal_strlit("+");
        }
        id.append("+");
    }
    id
}

impl Profile {
    /// Unlocks an achievement for the user under the given identifier. A type that the user
    /// has unlocked is not unlocked again, and an identifier that an unlock record bears is
    /// refused.
    pub fn unlock_achievement(&mut self, id: String, kind: AchievementType, moment: &Moment) -> (r:
        Result<Achievement, EngineError>)
        requires
            old(self).wf(),
        ensures
            final(self).wf(),
            match r {
                Ok(record) => {
                    &&& unlock_fault(old(self).deep_view(), id@, kind) is None
                    &&& record.deep_view() == unlock_record(
                        id@,
                        old(self).deep_view().user.id,
                        kind,
                        moment.timestamp@,
                    )
                    &&& final(self).deep_view() == (ProfileView {
                        achievements: old(self).deep_view().achievements.push(record.deep_view()),
                        ..old(self).deep_view()
                    })
                },
                Err(e) => {
                    &&& unlock_fault(old(self).deep_view(), id@, kind) == Some(e)
                    &&& final(self).deep_view() == old(self).deep_view()
                },
            },
    {
        let unlocked = unlocked_kinds(&self.achievements);
        if crate::rules::is_unlocked(&unlocked, kind) {
            return Err(EngineError::AlreadyUnlocked);
        }
        if is_borne(&self.achievements, id.as_str()) {
            return Err(EngineError::DuplicateId);
        }
        let ghost before = self.deep_view();
        let record = Achievement::unlocked(
            id,
            self.user.id.clone(),
            kind,
            moment.timestamp.clone(),
        );
        self.achievements.push(record.clone());
        proof {
            assert(self.achievements.deep_view() =~= before.achievements.push(record.deep_view()));
            assert forall|i: int| 0 <= i < before.achievements.len() implies !Achievement::clash(
                #[trigger] before.achievements[i],
                record.deep_view(),
            ) by {
                assert(unlocked_types(before.achievements)[i]
                    == before.achievements[i].achievement_type);
            }
            lemma_clash_free_push::<Achievement>(before.achievements, record.deep_view());
        }
        Ok(record)
    }

    /// The types that an evaluation of the rules would unlock, given the texts of today's
    /// and yesterday's date.
    pub fn pending_achievements(&self, today: &str, yesterday: &str) -> (r: Vec<AchievementType>)
        ensures
            r@ == newly_earned_of(
                figures_of(self.deep_view(), today@, yesterday@),
                unlocked_types(self.deep_view().achievements),
            ),
    {
        let figures = self.figures(today, yesterday);
        let unlocked = unlocked_kinds(&self.achievements);
        newly_earned(&figures, &unlocked)
    }

    /// Evaluates the rules against the user's figures at the given moment and unlocks every
    /// type whose rule holds and which the user has not unlocked yet, each under a fresh
    /// identifier that no unlock record bears. Hands back the new unlock records, in the order of the rule table. Right
    /// after, a second evaluation would unlock nothing.
    pub fn evaluate_achievements(&mut self, moment: &Moment) -> (r: Vec<Achievement>)
        requires
            old(self).wf(),
        ensures
            final(self).wf(),
            r.len() == newly_earned_of(
                figures_of(old(self).deep_view(), moment.today@, moment.yesterday@),
                unlocked_types(old(self).deep_view().achievements),
            ).len(),
            forall|i: int|
                0 <= i < r.len() ==> (#[trigger] r[i]).deep_view() == unlock_record(
                    r[i].id@,
                    old(self).deep_view().user.id,
                    newly_earned_of(
                        figures_of(old(self).deep_view(), moment.today@, moment.yesterday@),
                        unlocked_types(old(self).deep_view().achievements),
                    )[i],
                    moment.timestamp@,
                ),
            final(self).deep_view() == (ProfileView {
                achievements: old(self).deep_view().achievements + r.deep_view(),
                ..old(self).deep_view()
            }),
            newly_earned_of(
                figures_of(final(self).deep_view(), moment.today@, moment.yesterday@),
                unlocked_types(final(self).deep_view().achievements),
            ) == Seq::<AchievementType>::empty(),
    {
        let ghost before = self.deep_view();
        let ghost figures = figures_of(before, moment.today@, moment.yesterday@);
        let ghost unlocked = unlocked_types(before.achievements);
        let kinds = self.pending_achievements(moment.today.as_str(), moment.yesterday.as_str());
        let mut out: Vec<Achievement> = Vec::new();
        let mut i: usize = 0;
        proof {
            crate::rules::lemma_newly_earned_distinct(figures, unlocked);
            assert(before.achievements + out.deep_view() =~= before.achievements);
        }
        while i < kinds.len()
            invariant
                i <= kinds.len(),
                out.len() == i,
                kinds@ == newly_earned_of(figures, unlocked),
                kinds@.no_duplicates(),
                unlocked == unlocked_types(before.achievements),
                well_formed(before),
                self.wf(),
                self.deep_view() == (ProfileView {
                    achievements: before.achievements + out.deep_view(),
                    ..before
                }),
                forall|j: int|
                    0 <= j < i ==> (#[trigger] out[j]).deep_view() == unlock_record(
                        out[j].id@,
                        before.user.id,
                        kinds[j],
                        moment.timestamp@,
                    ),
            decreases kinds.len() - i,
        {
            let ghost held = self.deep_view().achievements;
            let ghost granted = out.deep_view();
            let kind = kinds[i];
            let record = Achievement::unlocked(
                free_identifier(crate::clock::random_identifier(), &self.achievements),
                self.user.id.clone(),
                kind,
                moment.timestamp.clone(),
            );
            self.achievements.push(record.clone());
            out.push(record);
            proof {
                assert(out.deep_view() =~= granted.push(record.deep_view()));
                assert(self.achievements.deep_view() =~= held.push(record.deep_view()));
                assert(held.push(record.deep_view()) =~= before.achievements + out.deep_view());
                crate::rules::lemma_newly_earned_are_new(figures, unlocked, kind);
                assert forall|a: int| 0 <= a < held.len() implies !Achievement::clash(
                    #[trigger] held[a],
                    record.deep_view(),
                ) by {
                    if a < before.achievements.len() {
                        assert(held[a] == before.achievements[a]);
                        assert(unlocked[a] == before.achievements[a].achievement_type);
                    } else {
                        let j = a - before.achievements.len();
                        assert(held[a] == granted[j]);
                        assert(out[j].deep_view().achievement_type == kinds[j]);
                    }
                }
                lemma_clash_free_push::<Achievement>(held, record.deep_view());
            }
            i = i + 1;
        }
        proof {
            let after = self.deep_view();
            assert(unlocked_types(after.achievements) =~= unlocked + kinds@) by {
                assert forall|j: int| 0 <= j < after.achievements.len() implies unlocked_types(
                    after.achievements,
                )[j] == (unlocked + kinds@)[j] by {
                    if j >= before.achievements.len() {
                        let k = j - before.achievements.len();
                        assert(after.achievements[j] == out.deep_view()[k]);
                        assert(out[k].deep_view().achievement_type == kinds[k]);
                    }
                }
            }
            crate::rules::lemma_evaluation_idempotent(figures, unlocked);
        }
        out
    }
}

/// The task that a request describes, under the given identifier and creation time.
pub open spec fn task_of(id: Seq<char>, request: CreateTaskRequestView, created_at: Seq<char>) -> TaskView {
    TaskView {
        id,
        user_id: request.user_id,
        title: request.title,
        category: request.category,
        date: request.date,
        start_time: request.start_time,
        end_time: request.end_time,
        completed: false,
        created_at,
    }
}

/// Why a task cannot be added under an identifier, if it cannot.
pub open spec fn add_fault(v: ProfileView, id: Seq<char>, request: CreateTaskRequestView) -> Option<
    EngineError,
> {
    if request.user_id != v.user.id {
        Some(EngineError::WrongUser)
    } else if exists|i: int| 0 <= i < v.tasks.len() && (#[trigger] v.tasks[i]).id == id {
        Some(EngineError::DuplicateId)
    } else {
        None
    }
}

/// The index of the first task with the identifier, or the number of tasks where there is
/// none.
pub open spec fn task_index(tasks: Seq<TaskView>, id: Seq<char>) -> int
    decreases tasks.len(),
{
    if tasks.len() == 0 {
        0
    } else if tasks[0].id == id {
        0
    } else {
        1 + task_index(tasks.drop_first(), id)
    }
}

/// The tasks after a change-set was applied to every task with the identifier.
pub open spec fn tasks_patched(tasks: Seq<TaskView>, id: Seq<char>, request: UpdateTaskRequestView) -> Seq<
    TaskView,
> {
    Seq::new(
        tasks.len(),
        |i: int|
            if tasks[i].id == id {
                task_after(tasks[i], request)
            } else {
                tasks[i]
            },
    )
}

/// The tasks after the completed flag of every task with the identifier was set.
pub open spec fn tasks_flagged(tasks: Seq<TaskView>, id: Seq<char>, completed: bool) -> Seq<TaskView> {
    Seq::new(
        tasks.len(),
        |i: int|
            if tasks[i].id == id {
                TaskView { completed, ..tasks[i] }
            } else {
                tasks[i]
            },
    )
}

/// The tasks without those with the identifier.
pub open spec fn tasks_without(tasks: Seq<TaskView>, id: Seq<char>) -> Seq<TaskView>
    decreases tasks.len(),
{
    if tasks.len() == 0 {
        Seq::empty()
    } else if tasks.last().id == id {
        tasks_without(tasks.drop_last(), id)
    } else {
        tasks_without(tasks.drop_last(), id).push(tasks.last())
    }
}

/// Finds the first task with the identifier.
pub fn find_task(tasks: &Vec<Task>, id: &str) -> (i: usize)
    ensures
        i == task_index(tasks.deep_view(), id@),
        i <= tasks.len(),
        i < tasks.len() ==> tasks.deep_view()[i as int].id == id@,
{
    let mut i: usize = 0;
    assert(tasks.deep_view().skip(0) =~= tasks.deep_view());
    while i < tasks.len()
        invariant
            i <= tasks.len(),
            task_index(tasks.deep_view(), id@) == i + task_index(
                tasks.deep_view().skip(i as int),
                id@,
            ),
        decreases tasks.len() - i,
    {
        let ghost rest = tasks.deep_view().skip(i as int);
        assert(rest[0] == tasks[i as int].deep_view());
        if *tasks[i].id.as_str() == *id {
            return i;
        }
        assert(rest.drop_first() =~= tasks.deep_view().skip(i + 1));
        i = i + 1;
    }
    i
}

impl Profile {
    /// Adds the task that a request describes, under the given identifier. An identifier
    /// that a task bears already is refused.
    pub fn add_task(&mut self, id: String, request: CreateTaskRequest, moment: &Moment) -> (r:
        Result<Task, EngineError>)
        requires
            old(self).wf(),
        ensures
            final(self).wf(),
            match r {
                Ok(task) => {
                    &&& add_fault(old(self).deep_view(), id@, request.deep_view()) is None
                    &&& task.deep_view() == task_of(id@, request.deep_view(), moment.timestamp@)
                    &&& final(self).deep_view() == (ProfileView {
                        tasks: old(self).deep_view().tasks.push(task.deep_view()),
                        ..old(self).deep_view()
                    })
                },
                Err(e) => {
                    &&& add_fault(old(self).deep_view(), id@, request.deep_view()) == Some(e)
                    &&& final(self).deep_view() == old(self).deep_view()
                },
            },
    {
        if request.user_id != self.user.id {
            return Err(EngineError::WrongUser);
        }
        let ghost before = self.deep_view();
        let task = Task::from_request(id, request, moment.timestamp.clone());
        if find_clash(&self.tasks, &task) {
            proof {
                let i = choose|i: int|
                    0 <= i < before.tasks.len() && Task::clash(
                        #[trigger] before.tasks[i],
                        task.deep_view(),
                    );
                assert(before.tasks[i].id == id@);
            }
            return Err(EngineError::DuplicateId);
        }
        assert forall|i: int| 0 <= i < before.tasks.len() implies (#[trigger] before.tasks[i]).id
            != id@ by {
            assert(!Task::clash(before.tasks[i], task.deep_view()));
        }
        self.tasks.push(task.clone());
        proof {
            assert(self.tasks.deep_view() =~= before.tasks.push(task.deep_view()));
            lemma_clash_free_push::<Task>(before.tasks, task.deep_view());
        }
        Ok(task)
    }

    /// Applies a sparse change-set to the tasks with the given identifier and hands back the
    /// first of them as it then stands. An empty change-set changes nothing.
    pub fn update_task(&mut self, task_id: &str, request: &UpdateTaskRequest) -> (r: Result<
        Task,
        EngineError,
    >)
        requires
            old(self).wf(),
        ensures
            final(self).wf(),
            task_request_is_empty(request.deep_view()) ==> final(self).deep_view() == old(
                self,
            ).deep_view(),
            match r {
                Ok(task) => {
                    let i = task_index(old(self).deep_view().tasks, task_id@);
                    &&& i < old(self).deep_view().tasks.len()
                    &&& task.deep_view() == task_after(
                        old(self).deep_view().tasks[i],
                        request.deep_view(),
                    )
                    &&& final(self).deep_view() == (ProfileView {
                        tasks: tasks_patched(
                            old(self).deep_view().tasks,
                            task_id@,
                            request.deep_view(),
                        ),
                        ..old(self).deep_view()
                    })
                },
                Err(e) => {
                    &&& e == EngineError::NotFound
                    &&& task_index(old(self).deep_view().tasks, task_id@) == old(
                        self,
                    ).deep_view().tasks.len()
                    &&& final(self).deep_view() == old(self).deep_view()
                },
            },
    {
        let first = find_task(&self.tasks, task_id);
        if first >= self.tasks.len() {
            return Err(EngineError::NotFound);
        }
        let ghost before = self.deep_view();
        let ghost change = request.deep_view();
        let mut i: usize = 0;
        while i < self.tasks.len()
            invariant
                i <= self.tasks.len(),
                self.tasks.len() == before.tasks.len(),
                well_formed(before),
                change == request.deep_view(),
                self.deep_view() == (ProfileView { tasks: self.tasks.deep_view(), ..before }),
                forall|j: int|
                    0 <= j < i ==> #[trigger] self.tasks.deep_view()[j] == (if before.tasks[j].id
                        == task_id@ {
                        task_after(before.tasks[j], change)
                    } else {
                        before.tasks[j]
                    }),
                forall|j: int|
                    i <= j < before.tasks.len() ==> #[trigger] self.tasks.deep_view()[j]
                        == before.tasks[j],
            decreases self.tasks.len() - i,
        {
            let ghost held = self.tasks.deep_view();
            assert(held[i as int] == before.tasks[i as int]);
            if *self.tasks[i].id.as_str() == *task_id {
                let current = self.tasks[i].clone();
                assert(current.deep_view() == held[i as int]);
                let patched = current.patched(request);
                let ghost row = patched.deep_view();
                assert(row == task_after(before.tasks[i as int], change));
                self.tasks[i] = patched;
                assert(self.tasks.deep_view()[i as int] == row);
                assert forall|j: int| 0 <= j < before.tasks.len() && j != i implies
                    #[trigger] self.tasks.deep_view()[j] == held[j] by {}
            }
            i = i + 1;
        }
        assert(self.tasks.deep_view() =~= tasks_patched(before.tasks, task_id@, change));
        assert(self.tasks.deep_view()[first as int] == task_after(
            before.tasks[first as int],
            change,
        ));
        proof {
            if task_request_is_empty(change) {
                assert(self.tasks.deep_view() =~= before.tasks);
            }
            let after = self.deep_view().tasks;
            assert forall|j: int| 0 <= j < after.len() implies Task::owner(#[trigger] after[j])
                == before.user.id by {
                assert(Task::owner(before.tasks[j]) == before.user.id);
            }
            assert forall|a: int, b: int| 0 <= a < b < after.len() implies !Task::clash(
                #[trigger] after[a],
                #[trigger] after[b],
            ) by {
                assert(!Task::clash(before.tasks[a], before.tasks[b]));
            }
        }
        Ok(self.tasks[first].clone())
    }

    /// Toggles the completed flag of the tasks with the given identifier, going by the first
    /// of them, and hands that one back as it then stands.
    pub fn toggle_task_completion(&mut self, task_id: &str) -> (r: Result<Task, EngineError>)
        requires
            old(self).wf(),
        ensures
            final(self).wf(),
            match r {
                Ok(task) => {
                    let i = task_index(old(self).deep_view().tasks, task_id@);
                    &&& i < old(self).deep_view().tasks.len()
                    &&& task.deep_view() == (TaskView {
                        completed: !old(self).deep_view().tasks[i].completed,
                        ..old(self).deep_view().tasks[i]
                    })
                    &&& final(self).deep_view() == (ProfileView {
                        tasks: tasks_flagged(
                            old(self).deep_view().tasks,
                            task_id@,
                            !old(self).deep_view().tasks[i].completed,
                        ),
                        ..old(self).deep_view()
                    })
                },
                Err(e) => {
                    &&& e == EngineError::NotFound
                    &&& task_index(old(self).deep_view().tasks, task_id@) == old(
                        self,
                    ).deep_view().tasks.len()
                    &&& final(self).deep_view() == old(self).deep_view()
                },
            },
    {
        let first = find_task(&self.tasks, task_id);
        if first >= self.tasks.len() {
            return Err(EngineError::NotFound);
        }
        let completed = !self.tasks[first].completed;
        let ghost before = self.deep_view();
        let mut i: usize = 0;
        while i < self.tasks.len()
            invariant
                i <= self.tasks.len(),
                self.tasks.len() == before.tasks.len(),
                well_formed(before),
                self.deep_view() == (ProfileView { tasks: self.tasks.deep_view(), ..before }),
                forall|j: int|
                    0 <= j < i ==> #[trigger] self.tasks.deep_view()[j] == (if before.tasks[j].id
                        == task_id@ {
                        TaskView { completed, ..before.tasks[j] }
                    } else {
                        before.tasks[j]
                    }),
                forall|j: int|
                    i <= j < before.tasks.len() ==> #[trigger] self.tasks.deep_view()[j]
                        == before.tasks[j],
            decreases self.tasks.len() - i,
        {
            let ghost held = self.tasks.deep_view();
            assert(held[i as int] == before.tasks[i as int]);
            if *self.tasks[i].id.as_str() == *task_id {
                let mut flagged = self.tasks[i].clone();
                flagged.completed = completed;
                let ghost row = flagged.deep_view();
                assert(row == (TaskView { completed, ..before.tasks[i as int] }));
                self.tasks[i] = flagged;
                assert(self.tasks.deep_view()[i as int] == row);
                assert forall|j: int| 0 <= j < before.tasks.len() && j != i implies
                    #[trigger] self.tasks.deep_view()[j] == held[j] by {}
            }
            i = i + 1;
        }
        assert(self.tasks.deep_view() =~= tasks_flagged(before.tasks, task_id@, completed));
        assert(self.tasks.deep_view()[first as int] == (TaskView {
            completed,
            ..before.tasks[first as int]
        }));
        proof {
            let after = self.deep_view().tasks;
            assert forall|j: int| 0 <= j < after.len() implies Task::owner(#[trigger] after[j])
                == before.user.id by {
                assert(Task::owner(before.tasks[j]) == before.user.id);
            }
            assert forall|a: int, b: int| 0 <= a < b < after.len() implies !Task::clash(
                #[trigger] after[a],
                #[trigger] after[b],
            ) by {
                assert(!Task::clash(before.tasks[a], before.tasks[b]));
            }
        }
        Ok(self.tasks[first].clone())
    }

    /// Deletes the tasks with the given identifier.
    pub fn delete_task(&mut self, task_id: &str)
        requires
            old(self).wf(),
        ensures
            final(self).wf(),
            final(self).deep_view() == (ProfileView {
                tasks: tasks_without(old(self).deep_view().tasks, task_id@),
                ..old(self).deep_view()
            }),
    {
        let ghost before = self.deep_view();
        let ghost mut from: Seq<int> = Seq::empty();
        let mut kept: Vec<Task> = Vec::new();
        let mut i: usize = 0;
        assert(self.tasks.deep_view().take(0) =~= Seq::empty());
        assert(kept.deep_view() =~= Seq::empty());
        while i < self.tasks.len()
            invariant
                i <= self.tasks.len(),
                self.deep_view() == before,
                well_formed(before),
                kept.deep_view() == tasks_without(before.tasks.take(i as int), task_id@),
                from.len() == kept.len(),
                forall|j: int|
                    0 <= j < kept.len() ==> 0 <= #[trigger] from[j] < i && kept.deep_view()[j]
                        == before.tasks[from[j]],
                forall|a: int, b: int|
                    0 <= a < b < kept.len() ==> #[trigger] from[a] < #[trigger] from[b],
            decreases self.tasks.len() - i,
        {
            let ghost next = before.tasks.take(i + 1);
            let ghost held = kept.deep_view();
            assert(next.last() == self.tasks[i as int].deep_view());
            assert(next.drop_last() =~= before.tasks.take(i as int));
            if *self.tasks[i].id.as_str() != *task_id {
                kept.push(self.tasks[i].clone());
                proof {
                    from = from.push(i as int);
                    assert(kept.deep_view() =~= held.push(self.tasks[i as int].deep_view()));
                }
            }
            i = i + 1;
        }
        assert(before.tasks.take(i as int) =~= before.tasks);
        proof {
            let after = kept.deep_view();
            assert forall|j: int| 0 <= j < after.len() implies Task::owner(#[trigger] after[j])
                == before.user.id by {
                assert(Task::owner(before.tasks[from[j]]) == before.user.id);
            }
            assert forall|a: int, b: int| 0 <= a < b < after.len() implies !Task::clash(
                #[trigger] after[a],
                #[trigger] after[b],
            ) by {
                assert(from[a] < from[b]);
                assert(!Task::clash(before.tasks[from[a]], before.tasks[from[b]]));
            }
        }
        self.tasks = kept;
    }
}

/// The sessions that the import of a snapshot inserts: those of the snapshot, as the user's,
/// whose identifier no session bears yet.
pub open spec fn incoming_sessions(v: ProfileView, snapshot: ExportDataView) -> Seq<
    FocusSessionView,
> {
    sessions_from(
        merged::<FocusSession>(v.sessions, snapshot.focus_sessions, v.user.id),
        v.sessions.len() as int,
    )
}

/// The profile after a snapshot was imported into it: the snapshot's sessions, tasks and
/// unlock records are merged in as the user's, so that existing rows win; every session that
/// is inserted is booked on the date on which it started; and the snapshot's settings are
/// written, so that the last write wins. The user stays as it is.
pub open spec fn imported(v: ProfileView, snapshot: ExportDataView) -> ProfileView {
    ProfileView {
        sessions: merged::<FocusSession>(v.sessions, snapshot.focus_sessions, v.user.id),
        tasks: merged::<Task>(v.tasks, snapshot.tasks, v.user.id),
        achievements: merged::<Achievement>(v.achievements, snapshot.achievements, v.user.id),
        settings: settings_applied(v.settings, snapshot.settings),
        daily_stats: match booked_all(v.daily_stats, incoming_sessions(v, snapshot)) {
            Ok(rows) => rows,
            Err(_) => v.daily_stats,
        },
        ..v
    }
}

/// Why a snapshot cannot be imported into a profile, if it cannot: it is of another user, it
/// holds more rows of a kind than the account can count, or one of the sessions that would be
/// inserted cannot be booked, because its duration is negative, its start time is shorter
/// than a date, or the rollup of its date cannot hold the sum. The first such session
/// decides.
pub open spec fn import_fault(v: ProfileView, snapshot: ExportDataView) -> Option<EngineError> {
    if snapshot.user.id != v.user.id {
        Some(EngineError::WrongUser)
    } else if !fits(snapshot.focus_sessions.len() as int) || !fits(snapshot.tasks.len() as int)
        || !fits(snapshot.achievements.len() as int) || !fits(snapshot.settings.len() as int) {
        Some(EngineError::Overflow)
    } else {
        match booked_all(v.daily_stats, incoming_sessions(v, snapshot)) {
            Err(e) => Some(ledger_fault(e)),
            Ok(_) => None,
        }
    }
}

/// The account of the import of a snapshot into a profile: the rows that were inserted of
/// each kind, and the settings that were written.
pub open spec fn import_report(v: ProfileView, snapshot: ExportDataView) -> crate::snapshot::ImportResultView {
    import_account(
        imported(v, snapshot).sessions.len() - v.sessions.len(),
        imported(v, snapshot).tasks.len() - v.tasks.len(),
        imported(v, snapshot).achievements.len() - v.achievements.len(),
        snapshot.settings.len() as int,
    )
}

/// Whether a snapshot is an export of a profile at a time. It is tagged with the format
/// version and the time; it holds the user, the unlock records and the settings as the
/// profile does; it holds the sessions of the profile, each once, in the order of the times
/// at which they started; and it holds the tasks of the profile, each once, in the order of
/// their dates and, on one date, of the times at which they start. Rows that the order does
/// not tell apart may stand either way.
pub open spec fn is_export_of(e: ExportDataView, v: ProfileView, exported_at: Seq<char>) -> bool {
    &&& e.version == ExportData::format_version()
    &&& e.exported_at == exported_at
    &&& e.user == v.user
    &&& e.achievements == v.achievements
    &&& e.settings == v.settings
    &&& e.focus_sessions.to_multiset() == v.sessions.to_multiset()
    &&& forall|i: int, j: int|
        0 <= i < j < e.focus_sessions.len() ==> !precedes(
            (#[trigger] e.focus_sessions[j]).started_at,
            (#[trigger] e.focus_sessions[i]).started_at,
        )
    &&& e.tasks.to_multiset() == v.tasks.to_multiset()
    &&& forall|i: int, j: int|
        0 <= i < j < e.tasks.len() ==> !(precedes(
            (#[trigger] e.tasks[j]).date,
            (#[trigger] e.tasks[i]).date,
        ) || (e.tasks[j].date == e.tasks[i].date && precedes(
            e.tasks[j].start_time,
            e.tasks[i].start_time,
        )))
}

/// The empty profile of a user.
pub open spec fn empty_profile(user: UserView) -> ProfileView {
    ProfileView {
        user,
        sessions: Seq::empty(),
        tasks: Seq::empty(),
        achievements: Seq::empty(),
        settings: Seq::empty(),
        daily_stats: Seq::empty(),
    }
}

impl Profile {
    /// Reads the value of the setting under a key.
    pub fn get_setting(&self, key: &str) -> (r: Option<String>)
        ensures
            r.deep_view() == setting_value(self.deep_view().settings, key@),
    {
        get_setting(&self.settings, key)
    }

    /// Writes a value under a key: the last write wins.
    pub fn set_setting(&mut self, key: &str, value: &str)
        requires
            old(self).wf(),
        ensures
            final(self).wf(),
            final(self).deep_view() == (ProfileView {
                settings: setting_put(old(self).deep_view().settings, key@, value@),
                ..old(self).deep_view()
            }),
    {
        proof {
            lemma_put_keeps_keys_distinct(self.deep_view().settings, key@, value@);
        }
        put_setting(&mut self.settings, key, value);
    }

    /// Deletes the setting under a key, if there is one.
    pub fn delete_setting(&mut self, key: &str)
        requires
            old(self).wf(),
        ensures
            final(self).wf(),
            final(self).deep_view() == (ProfileView {
                settings: setting_removed(old(self).deep_view().settings, key@),
                ..old(self).deep_view()
            }),
    {
        let ghost before = self.deep_view().settings;
        remove_setting(&mut self.settings, key);
        proof {
            lemma_key_index(before, key@);
            let after = self.deep_view().settings;
            let k = crate::settings::key_index(before, key@);
            assert forall|i: int, j: int| 0 <= i < j < after.len() implies (#[trigger] after[i]).key
                != (#[trigger] after[j]).key by {
                let a = if i < k {
                    i
                } else {
                    i + 1
                };
                let b = if j < k {
                    j
                } else {
                    j + 1
                };
                assert(after[i] == before[a]);
                assert(after[j] == before[b]);
            }
        }
    }

    /// A complete snapshot of the profile, exported at the given moment: the sessions in the
    /// order of the times at which they started, the tasks in the order of their dates and
    /// start times.
    pub fn export(&self, moment: &Moment) -> (r: ExportData)
        ensures
            is_export_of(r.deep_view(), self.deep_view(), moment.timestamp@),
    {
        let sessions = sort(self.sessions.clone());
        let tasks = sort(self.tasks.clone());
        proof {
            let s = sessions.deep_view();
            assert forall|i: int, j: int| 0 <= i < j < s.len() implies !precedes(
                (#[trigger] s[j]).started_at,
                (#[trigger] s[i]).started_at,
            ) by {
                assert(!FocusSession::before(s[j], s[i]));
            }
            let t = tasks.deep_view();
            assert forall|i: int, j: int| 0 <= i < j < t.len() implies !(precedes(
                (#[trigger] t[j]).date,
                (#[trigger] t[i]).date,
            ) || (t[j].date == t[i].date && precedes(t[j].start_time, t[i].start_time))) by {
                assert(!Task::before(t[j], t[i]));
            }
        }
        ExportData::assemble(
            moment.timestamp.clone(),
            self.user.clone(),
            sessions,
            tasks,
            self.achievements.clone(),
            self.settings.clone(),
        )
    }

    /// Imports a snapshot of the user's data into the profile and hands back the account of
    /// what was inserted. Every session that is inserted is booked on its date, so the rollups
    /// stay in balance with the sessions. The import takes effect as a whole or not at all,
    /// and it can be repeated: a second import of the same snapshot inserts nothing.
    pub fn import(&mut self, snapshot: &ExportData) -> (r: Result<ImportResult, EngineError>)
        requires
            old(self).wf(),
        ensures
            final(self).wf(),
            match r {
                Ok(account) => {
                    &&& import_fault(old(self).deep_view(), snapshot.deep_view()) is None
                    &&& final(self).deep_view() == imported(
                        old(self).deep_view(),
                        snapshot.deep_view(),
                    )
                    &&& account.deep_view() == import_report(
                        old(self).deep_view(),
                        snapshot.deep_view(),
                    )
                    &&& balance(final(self).deep_view()) == balance(old(self).deep_view())
                },
                Err(e) => {
                    &&& import_fault(old(self).deep_view(), snapshot.deep_view()) == Some(e)
                    &&& final(self).deep_view() == old(self).deep_view()
                },
            },
    {
        if snapshot.user.id != self.user.id {
            return Err(EngineError::WrongUser);
        }
        let fit = (
            narrowed(snapshot.focus_sessions.len()),
            narrowed(snapshot.tasks.len()),
            narrowed(snapshot.achievements.len()),
            narrowed(snapshot.settings.len()),
        );
        let settings = match fit {
            (Some(_), Some(_), Some(_), Some(settings)) => settings,
            _ => {
                return Err(EngineError::Overflow);
            },
        };
        let ghost before = self.deep_view();
        let ghost incoming = snapshot.deep_view();
        proof {
            lemma_merged_owned::<FocusSession>(
                before.sessions,
                incoming.focus_sessions,
                before.user.id,
            );
            lemma_merged_owned::<Task>(before.tasks, incoming.tasks, before.user.id);
            lemma_merged_owned::<Achievement>(
                before.achievements,
                incoming.achievements,
                before.user.id,
            );
            lemma_merged_clash_free::<FocusSession>(
                before.sessions,
                incoming.focus_sessions,
                before.user.id,
            );
            lemma_merged_clash_free::<Task>(before.tasks, incoming.tasks, before.user.id);
            lemma_merged_clash_free::<Achievement>(
                before.achievements,
                incoming.achievements,
                before.user.id,
            );
            lemma_applied_keeps_keys_distinct(before.settings, incoming.settings);
        }
        let mut all_sessions = self.sessions.clone();
        let kept = all_sessions.len();
        let sessions = merge(&mut all_sessions, &snapshot.focus_sessions, self.user.id.as_str());
        match book_sessions(&mut self.daily_stats, &all_sessions, kept) {
            Ok(()) => {},
            Err(e) => {
                return Err(EngineError::of_ledger(e));
            },
        }
        proof {
            lemma_booked_all(before.daily_stats, incoming_sessions(before, incoming));
            lemma_import_keeps_balance(before, incoming);
        }
        self.sessions = all_sessions;
        let tasks = merge(&mut self.tasks, &snapshot.tasks, self.user.id.as_str());
        let achievements = merge(
            &mut self.achievements,
            &snapshot.achievements,
            self.user.id.as_str(),
        );
        let _ = apply_settings(&mut self.settings, &snapshot.settings);
        Ok(ImportResult::summarize(sessions as i64, tasks as i64, achievements as i64, settings))
    }

    /// Imports a snapshot into the store's profile of the snapshot's user. Where the store
    /// has no such profile, the user is created first, from the snapshot's user record and
    /// as of the given moment; an existing user record stays as it is.
    pub fn import_snapshot(existing: Option<Profile>, snapshot: &ExportData, moment: &Moment) -> (r:
        Result<(Profile, ImportResult), EngineError>)
        requires
            existing is Some ==> existing->0.wf(),
        ensures
            ({
                let base = match existing {
                    Some(profile) => profile.deep_view(),
                    None => empty_profile(
                        new_user_of(snapshot.deep_view().user, moment.timestamp@),
                    ),
                };
                match r {
                    Ok((profile, account)) => {
                        &&& profile.wf()
                        &&& import_fault(base, snapshot.deep_view()) is None
                        &&& profile.deep_view() == imported(base, snapshot.deep_view())
                        &&& account.deep_view() == import_report(base, snapshot.deep_view())
                    },
                    Err(e) => import_fault(base, snapshot.deep_view()) == Some(e),
                }
            }),
    {
        let mut profile = match existing {
            Some(profile) => profile,
            None => Profile::new(snapshot.user.adopted_at(moment.timestamp.as_str())),
        };
        match profile.import(snapshot) {
            Ok(account) => Ok((profile, account)),
            Err(e) => Err(e),
        }
    }
}

/// The seconds of sessions that stand one list behind the other are the seconds of the one
/// and of the other together.
pub proof fn lemma_sessions_seconds_add(a: Seq<FocusSessionView>, b: Seq<FocusSessionView>)
    ensures
        sessions_seconds(a + b) == sessions_seconds(a) + sessions_seconds(b),
    decreases b.len(),
{
    if b.len() == 0 {
        assert(a + b =~= a);
    } else {
        lemma_sessions_seconds_add(a, b.drop_last());
        assert((a + b).drop_last() =~= a + b.drop_last());
    }
}

/// An import keeps the rollups in balance with the sessions: what the inserted sessions add
/// to the seconds of the sessions, their booking adds to the seconds of the rollups.
pub proof fn lemma_import_keeps_balance(v: ProfileView, snapshot: ExportDataView)
    requires
        booked_all(v.daily_stats, incoming_sessions(v, snapshot)) is Ok,
    ensures
        balance(imported(v, snapshot)) == balance(v),
{
    let all = merged::<FocusSession>(v.sessions, snapshot.focus_sessions, v.user.id);
    let new = incoming_sessions(v, snapshot);
    lemma_merged_extends::<FocusSession>(v.sessions, snapshot.focus_sessions, v.user.id);
    assert(all =~= v.sessions + new);
    lemma_sessions_seconds_add(v.sessions, new);
    lemma_booked_all(v.daily_stats, new);
}

/// An import can be repeated: a second import of the same snapshot succeeds where the first
/// did, inserts no session, task or unlock record, leaves these rows and the rollups as the
/// first import left them, and every setting holds after it what it held before it.
pub proof fn lemma_import_repeatable(v: ProfileView, snapshot: ExportDataView, key: Seq<char>)
    ensures
        ({
            let once = imported(v, snapshot);
            let twice = imported(once, snapshot);
            &&& twice.sessions == once.sessions
            &&& twice.tasks == once.tasks
            &&& twice.achievements == once.achievements
            &&& twice.daily_stats == once.daily_stats
            &&& import_report(once, snapshot).sessions_imported == 0
            &&& import_report(once, snapshot).tasks_imported == 0
            &&& import_report(once, snapshot).achievements_imported == 0
            &&& setting_value(twice.settings, key) == setting_value(once.settings, key)
            &&& import_fault(v, snapshot) is None ==> import_fault(once, snapshot) is None
        }),
{
    let once = imported(v, snapshot);
    lemma_merge_repeatable::<FocusSession>(v.sessions, snapshot.focus_sessions, v.user.id);
    lemma_merge_repeatable::<Task>(v.tasks, snapshot.tasks, v.user.id);
    lemma_merge_repeatable::<Achievement>(v.achievements, snapshot.achievements, v.user.id);
    lemma_settings_repeatable(v.settings, snapshot.settings, key);
    assert(incoming_sessions(once, snapshot) =~= Seq::empty());
}

/// After an import the settings reflect the snapshot: every key of the snapshot holds the
/// value that the snapshot's last setting under it holds, and every other key holds what it
/// held.
pub proof fn lemma_import_settings(v: ProfileView, snapshot: ExportDataView, key: Seq<char>)
    ensures
        setting_value(imported(v, snapshot).settings, key) == (match last_written(
            snapshot.settings,
            key,
        ) {
            Some(value) => Some(value),
            None => setting_value(v.settings, key),
        }),
{
    lemma_settings_reflect_incoming(v.settings, snapshot.settings, key);
}

/// Existing rows win: an import leaves every session, task and unlock record of the profile
/// as and where it is.
pub proof fn lemma_import_keeps_rows(v: ProfileView, snapshot: ExportDataView)
    ensures
        ({
            let after = imported(v, snapshot);
            &&& after.user == v.user
            &&& after.sessions.len() >= v.sessions.len()
            &&& after.sessions.take(v.sessions.len() as int) == v.sessions
            &&& after.tasks.len() >= v.tasks.len()
            &&& after.tasks.take(v.tasks.len() as int) == v.tasks
            &&& after.achievements.len() >= v.achievements.len()
            &&& after.achievements.take(v.achievements.len() as int) == v.achievements
        }),
{
    let after = imported(v, snapshot);
    lemma_merged_extends::<FocusSession>(v.sessions, snapshot.focus_sessions, v.user.id);
    lemma_merged_extends::<Task>(v.tasks, snapshot.tasks, v.user.id);
    lemma_merged_extends::<Achievement>(v.achievements, snapshot.achievements, v.user.id);
    assert(after.sessions.take(v.sessions.len() as int) =~= v.sessions);
    assert(after.tasks.take(v.tasks.len() as int) =~= v.tasks);
    assert(after.achievements.take(v.achievements.len() as int) =~= v.achievements);
}

} // verus!
