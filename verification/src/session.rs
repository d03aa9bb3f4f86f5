//! Focus sessions and the figures derived from them.

use vstd::prelude::*;

verus! {

/// A recorded focus session. Sessions are never changed once recorded.
#[derive(Debug)]
pub struct FocusSession {
    pub id: String,
    pub user_id: String,
    pub duration_seconds: i64,
    pub started_at: String,
    pub ended_at: String,
    pub category: Option<String>,
    pub notes: Option<String>,
    pub created_at: String,
}

/// What a `FocusSession` holds, as plain values.
pub struct FocusSessionView {
    pub id: Seq<char>,
    pub user_id: Seq<char>,
    pub duration_seconds: int,
    pub started_at: Seq<char>,
    pub ended_at: Seq<char>,
    pub category: Option<Seq<char>>,
    pub notes: Option<Seq<char>>,
    pub created_at: Seq<char>,
}

impl DeepView for FocusSession {
    type V = FocusSessionView;

    open spec fn deep_view(&self) -> FocusSessionView {
        FocusSessionView {
            id: self.id@,
            user_id: self.user_id@,
            duration_seconds: self.duration_seconds as int,
            started_at: self.started_at@,
            ended_at: self.ended_at@,
            category: self.category.deep_view(),
            notes: self.notes.deep_view(),
            created_at: self.created_at@,
        }
    }
}

impl Clone for FocusSession {
    fn clone(&self) -> (r: Self)
        ensures
            r == *self,
    {
        FocusSession {
            id: self.id.clone(),
            user_id: self.user_id.clone(),
            duration_seconds: self.duration_seconds,
            started_at: self.started_at.clone(),
            ended_at: self.ended_at.clone(),
            category: self.category.clone(),
            notes: self.notes.clone(),
            created_at: self.created_at.clone(),
        }
    }
}

/// The request that records a focus session.
#[derive(Debug)]
pub struct CreateFocusSessionRequest {
    pub user_id: String,
    pub duration_seconds: i64,
    pub started_at: String,
    pub ended_at: String,
    pub category: Option<String>,
    pub notes: Option<String>,
}

/// What a `CreateFocusSessionRequest` holds, as plain values.
pub struct CreateFocusSessionRequestView {
    pub user_id: Seq<char>,
    pub duration_seconds: int,
    pub started_at: Seq<char>,
    pub ended_at: Seq<char>,
    pub category: Option<Seq<char>>,
    pub notes: Option<Seq<char>>,
}

impl DeepView for CreateFocusSessionRequest {
    type V = CreateFocusSessionRequestView;

    open spec fn deep_view(&self) -> CreateFocusSessionRequestView {
        CreateFocusSessionRequestView {
            user_id: self.user_id@,
            duration_seconds: self.duration_seconds as int,
            started_at: self.started_at@,
            ended_at: self.ended_at@,
            category: self.category.deep_view(),
            notes: self.notes.deep_view(),
        }
    }
}

impl Clone for CreateFocusSessionRequest {
    fn clone(&self) -> (r: Self)
        ensures
            r == *self,
    {
        CreateFocusSessionRequest {
            user_id: self.user_id.clone(),
            duration_seconds: self.duration_seconds,
            started_at: self.started_at.clone(),
            ended_at: self.ended_at.clone(),
            category: self.category.clone(),
            notes: self.notes.clone(),
        }
    }
}

impl FocusSession {
    /// The session that a request describes, under the given identifier and creation time.
    pub fn from_request(id: String, request: CreateFocusSessionRequest, created_at: String) -> (r:
        FocusSession)
        ensures
            r.deep_view() == (FocusSessionView {
                id: id@,
                user_id: request.user_id@,
                duration_seconds: request.duration_seconds as int,
                started_at: request.started_at@,
                ended_at: request.ended_at@,
                category: request.category.deep_view(),
                notes: request.notes.deep_view(),
                created_at: created_at@,
            }),
    {
        FocusSession {
            id,
            user_id: request.user_id,
            duration_seconds: request.duration_seconds,
            started_at: request.started_at,
            ended_at: request.ended_at,
            category: request.category,
            notes: request.notes,
            created_at,
        }
    }
}

/// The rollup of one user's sessions on one calendar date.
#[derive(Debug)]
pub struct DailyStats {
    pub date: String,
    pub total_focus_seconds: i64,
    pub session_count: i64,
}

/// What a `DailyStats` holds, as plain values.
pub struct DailyStatsView {
    pub date: Seq<char>,
    pub total_focus_seconds: int,
    pub session_count: int,
}

impl DeepView for DailyStats {
    type V = DailyStatsView;

    open spec fn deep_view(&self) -> DailyStatsView {
        DailyStatsView {
            date: self.date@,
            total_focus_seconds: self.total_focus_seconds as int,
            session_count: self.session_count as int,
        }
    }
}

impl Clone for DailyStats {
    fn clone(&self) -> (r: Self)
        ensures
            r == *self,
    {
        DailyStats {
            date: self.date.clone(),
            total_focus_seconds: self.total_focus_seconds,
            session_count: self.session_count,
        }
    }
}

/// The summary of one user's activity. Times are in seconds, streaks in days.
#[derive(Debug, Clone, Copy, PartialEq, Eq, Structural)]
pub struct UserStats {
    pub total_focus_time: i64,
    pub total_sessions: i64,
    pub current_streak: i64,
    pub longest_streak: i64,
    pub tasks_completed: i64,
}

/// One point of the activity heatmap: a date and the minutes of focus on it.
#[derive(Debug)]
pub struct HeatmapData {
    pub date: String,
    pub value: i64,
}

/// What a `HeatmapData` holds, as plain values.
pub struct HeatmapDataView {
    pub date: Seq<char>,
    pub value: int,
}

impl DeepView for HeatmapData {
    type V = HeatmapDataView;

    open spec fn deep_view(&self) -> HeatmapDataView {
        HeatmapDataView { date: self.date@, value: self.value as int }
    }
}

impl Clone for HeatmapData {
    fn clone(&self) -> (r: Self)
        ensures
            r == *self,
    {
        HeatmapData { date: self.date.clone(), value: self.value }
    }
}

/// The number of sessions that a listing shows where the caller names none.
pub const DEFAULT_SESSION_LIMIT: i64 = 100;

/// The number of sessions that a listing shows: the number asked for, or the default.
pub fn session_limit(limit: Option<i64>) -> (r: i64)
    ensures
        r == (match limit {
            Some(n) => n,
            None => DEFAULT_SESSION_LIMIT,
        }),
{
    match limit {
        Some(n) => n,
        None => DEFAULT_SESSION_LIMIT,
    }
}

/// The seconds of all sessions together.
pub open spec fn sessions_seconds(sessions: Seq<FocusSessionView>) -> int
    decreases sessions.len(),
{
    if sessions.len() == 0 {
        0
    } else {
        sessions_seconds(sessions.drop_last()) + sessions.last().duration_seconds
    }
}

} // verus!
