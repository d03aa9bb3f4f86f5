//! The daily ledger: one rollup per calendar date of a user, kept in the order of the dates.
//!
//! Each new session is booked on the date on which it started: the first session of a date
//! opens the rollup of that date, every later one adds its seconds and counts one more.

use crate::session::{
    sessions_seconds, DailyStats, DailyStatsView, FocusSession, FocusSessionView, HeatmapData,
    HeatmapDataView,
};
use crate::streak::{current_streak_of, longest_streak_of};
use crate::text::{
    ascending, first_chars, lemma_ascending_unique, lemma_precedes_total,
    lemma_precedes_transitive, precedes, str_lt,
};
use vstd::prelude::*;

verus! {

/// Why a session was not booked.
#[derive(Debug, Clone, Copy, PartialEq, Eq, Structural)]
pub enum LedgerError {
    /// The duration is negative.
    NegativeDuration,
    /// The start time is shorter than a date.
    ShortTimestamp,
    /// The rollup of the date cannot hold the sum.
    Overflow,
}

/// The calendar date of a start time: its first ten characters.
pub open spec fn session_date(started_at: Seq<char>) -> Option<Seq<char>> {
    if started_at.len() >= 10 {
        Some(started_at.take(10))
    } else {
        None
    }
}

/// The place of a date in a ledger: the index of the first rollup whose date is not
/// earlier.
pub open spec fn slot(rows: Seq<DailyStatsView>, date: Seq<char>) -> int
    decreases rows.len(),
{
    if rows.len() == 0 {
        0
    } else if !precedes(rows[0].date, date) {
        0
    } else {
        1 + slot(rows.drop_first(), date)
    }
}

/// Whether the ledger has a rollup for the date at the date's place.
pub open spec fn has_date(rows: Seq<DailyStatsView>, date: Seq<char>) -> bool {
    slot(rows, date) < rows.len() && rows[slot(rows, date)].date == date
}

/// Whether booking the duration on the date would exceed what a rollup can hold.
pub open spec fn exceeds(rows: Seq<DailyStatsView>, date: Seq<char>, duration: int) -> bool {
    has_date(rows, date) && (rows[slot(rows, date)].total_focus_seconds + duration > i64::MAX
        || rows[slot(rows, date)].session_count + 1 > i64::MAX)
}

/// The ledger after a session of the given duration was booked on the date: the rollup of the
/// date has the duration added and counts one session more; where the date had none, a new
/// rollup with the duration and one session stands at the date's place.
pub open spec fn booked(rows: Seq<DailyStatsView>, date: Seq<char>, duration: int) -> Seq<
    DailyStatsView,
> {
    let i = slot(rows, date);
    if has_date(rows, date) {
        rows.update(
            i,
            DailyStatsView {
                date,
                total_focus_seconds: rows[i].total_focus_seconds + duration,
                session_count: rows[i].session_count + 1,
            },
        )
    } else {
        rows.insert(i, DailyStatsView { date, total_focus_seconds: duration, session_count: 1 })
    }
}

/// Whether the rollups stand in the order of their dates, each date once.
pub open spec fn ordered(rows: Seq<DailyStatsView>) -> bool {
    forall|i: int, j: int|
        0 <= i < j < rows.len() ==> precedes(#[trigger] rows[i].date, #[trigger] rows[j].date)
}

/// The focus seconds of all rollups together.
pub open spec fn ledger_seconds(rows: Seq<DailyStatsView>) -> int
    decreases rows.len(),
{
    if rows.len() == 0 {
        0
    } else {
        ledger_seconds(rows.drop_last()) + rows.last().total_focus_seconds
    }
}

/// The session counts of all rollups together.
pub open spec fn ledger_sessions(rows: Seq<DailyStatsView>) -> int
    decreases rows.len(),
{
    if rows.len() == 0 {
        0
    } else {
        ledger_sessions(rows.drop_last()) + rows.last().session_count
    }
}

/// Finds the place of a date in a ledger.
pub fn find_slot(rows: &Vec<DailyStats>, date: &str) -> (i: usize)
    ensures
        i == slot(rows.deep_view(), date@),
        i <= rows.len(),
{
    let mut i: usize = 0;
    assert(rows.deep_view().skip(0) =~= rows.deep_view());
    while i < rows.len()
        invariant
            i <= rows.len(),
            slot(rows.deep_view(), date@) == i + slot(rows.deep_view().skip(i as int), date@),
        decreases rows.len() - i,
    {
        let ghost rest = rows.deep_view().skip(i as int);
        assert(rest[0] == rows[i as int].deep_view());
        if !str_lt(rows[i].date.as_str(), date) {
            return i;
        }
        assert(rest.drop_first() =~= rows.deep_view().skip(i + 1));
        i = i + 1;
    }
    i
}

/// Books a session of the given duration on a date.
pub fn book(rows: &mut Vec<DailyStats>, date: &str, duration_seconds: i64) -> (r: Result<
    (),
    LedgerError,
>)
    ensures
        match r {
            Ok(()) => {
                &&& duration_seconds >= 0
                &&& !exceeds(old(rows).deep_view(), date@, duration_seconds as int)
                &&& final(rows).deep_view() == booked(
                    old(rows).deep_view(),
                    date@,
                    duration_seconds as int,
                )
            },
            Err(LedgerError::NegativeDuration) => {
                &&& duration_seconds < 0
                &&& final(rows).deep_view() == old(rows).deep_view()
            },
            Err(LedgerError::Overflow) => {
                &&& duration_seconds >= 0
                &&& exceeds(old(rows).deep_view(), date@, duration_seconds as int)
                &&& final(rows).deep_view() == old(rows).deep_view()
            },
            Err(LedgerError::ShortTimestamp) => false,
        },
{
    if duration_seconds < 0 {
        return Err(LedgerError::NegativeDuration);
    }
    let i = find_slot(rows, date);
    let ghost before = rows.deep_view();
    if i < rows.len() && *rows[i].date.as_str() == *date {
        let total = match rows[i].total_focus_seconds.checked_add(duration_seconds) {
            Some(total) => total,
            None => {
                return Err(LedgerError::Overflow);
            },
        };
        let count = match rows[i].session_count.checked_add(1) {
            Some(count) => count,
            None => {
                return Err(LedgerError::Overflow);
            },
        };
        let row = DailyStats {
            date: rows[i].date.clone(),
            total_focus_seconds: total,
            session_count: count,
        };
        rows[i] = row;
        assert(rows.deep_view() =~= booked(before, date@, duration_seconds as int));
    } else {
        rows.insert(
            i,
            DailyStats {
                date: String::from_str(date),
                total_focus_seconds: duration_seconds,
                session_count: 1,
            },
        );
        assert(rows.deep_view() =~= booked(before, date@, duration_seconds as int));
    }
    Ok(())
}

/// Books a session on the date on which it started.
pub fn book_session(rows: &mut Vec<DailyStats>, started_at: &str, duration_seconds: i64) -> (r:
    Result<(), LedgerError>)
    ensures
        match r {
            Ok(()) => {
                &&& duration_seconds >= 0
                &&& session_date(started_at@) is Some
                &&& !exceeds(
                    old(rows).deep_view(),
                    session_date(started_at@)->0,
                    duration_seconds as int,
                )
                &&& final(rows).deep_view() == booked(
                    old(rows).deep_view(),
                    session_date(started_at@)->0,
                    duration_seconds as int,
                )
            },
            Err(LedgerError::NegativeDuration) => {
                &&& duration_seconds < 0
                &&& final(rows).deep_view() == old(rows).deep_view()
            },
            Err(LedgerError::ShortTimestamp) => {
                &&& duration_seconds >= 0
                &&& session_date(started_at@) is None
                &&& final(rows).deep_view() == old(rows).deep_view()
            },
            Err(LedgerError::Overflow) => {
                &&& duration_seconds >= 0
                &&& session_date(started_at@) is Some
                &&& exceeds(
                    old(rows).deep_view(),
                    session_date(started_at@)->0,
                    duration_seconds as int,
                )
                &&& final(rows).deep_view() == old(rows).deep_view()
            },
        },
{
    if duration_seconds < 0 {
        return Err(LedgerError::NegativeDuration);
    }
    match first_chars(started_at, 10) {
        Some(date) => book(rows, date.as_str(), duration_seconds),
        None => Err(LedgerError::ShortTimestamp),
    }
}

/// The dates of the rollups that hold focus time, in the order of the ledger.
pub open spec fn active_dates(rows: Seq<DailyStatsView>) -> Seq<Seq<char>>
    decreases rows.len(),
{
    if rows.len() == 0 {
        Seq::empty()
    } else if rows.last().total_focus_seconds > 0 {
        active_dates(rows.drop_last()).push(rows.last().date)
    } else {
        active_dates(rows.drop_last())
    }
}

/// The minutes of a number of seconds, rounded toward zero.
pub open spec fn minutes_of(seconds: int) -> int {
    if seconds >= 0 {
        seconds / 60
    } else {
        -((-seconds) / 60)
    }
}

/// The heatmap points of the rollups whose date is not earlier than `cutoff`, in the order of
/// the ledger: each date with its minutes of focus.
pub open spec fn heatmap_since(rows: Seq<DailyStatsView>, cutoff: Seq<char>) -> Seq<
    HeatmapDataView,
>
    decreases rows.len(),
{
    if rows.len() == 0 {
        Seq::empty()
    } else if !precedes(rows.last().date, cutoff) {
        heatmap_since(rows.drop_last(), cutoff).push(
            HeatmapDataView {
                date: rows.last().date,
                value: minutes_of(rows.last().total_focus_seconds),
            },
        )
    } else {
        heatmap_since(rows.drop_last(), cutoff)
    }
}

/// The rollups whose date lies between `first` and `last`, both included, in the order of the
/// ledger.
pub open spec fn rows_between(rows: Seq<DailyStatsView>, first: Seq<char>, last: Seq<char>) -> Seq<
    DailyStatsView,
>
    decreases rows.len(),
{
    if rows.len() == 0 {
        Seq::empty()
    } else if !precedes(rows.last().date, first) && !precedes(last, rows.last().date) {
        rows_between(rows.drop_last(), first, last).push(rows.last())
    } else {
        rows_between(rows.drop_last(), first, last)
    }
}

/// The dates on which the user was active, earliest first.
pub fn active_dates_ascending(rows: &Vec<DailyStats>) -> (r: Vec<String>)
    ensures
        r.deep_view() == active_dates(rows.deep_view()),
        r.len() <= rows.len(),
{
    let mut out: Vec<String> = Vec::new();
    let mut i: usize = 0;
    assert(rows.deep_view().take(0) =~= Seq::empty());
    assert(out.deep_view() =~= Seq::empty());
    while i < rows.len()
        invariant
            i <= rows.len(),
            out.len() <= i,
            out.deep_view() == active_dates(rows.deep_view().take(i as int)),
        decreases rows.len() - i,
    {
        let ghost next = rows.deep_view().take(i + 1);
        let ghost before = out.deep_view();
        assert(next.last() == rows[i as int].deep_view());
        assert(next.drop_last() =~= rows.deep_view().take(i as int));
        if rows[i].total_focus_seconds > 0 {
            out.push(rows[i].date.clone());
            assert(out.deep_view() =~= before.push(rows[i as int].date@));
        }
        i = i + 1;
    }
    assert(rows.deep_view().take(i as int) =~= rows.deep_view());
    out
}

/// The dates on which the user was active, latest first.
pub fn active_dates_descending(rows: &Vec<DailyStats>) -> (r: Vec<String>)
    ensures
        r.deep_view() == active_dates(rows.deep_view()).reverse(),
        r.len() <= rows.len(),
{
    let ascending = active_dates_ascending(rows);
    let mut out: Vec<String> = Vec::new();
    let mut i: usize = ascending.len();
    while i > 0
        invariant
            i <= ascending.len(),
            out.len() == ascending.len() - i,
            forall|j: int|
                0 <= j < out.len() ==> #[trigger] out[j]@ == ascending[ascending.len() - 1 - j]@,
        decreases i,
    {
        i = i - 1;
        out.push(ascending[i].clone());
    }
    assert(out.deep_view() =~= ascending.deep_view().reverse());
    out
}

/// The minutes of a number of seconds, rounded toward zero.
pub fn minutes(seconds: i64) -> (r: i64)
    ensures
        r == minutes_of(seconds as int),
{
    if seconds >= 0 {
        seconds / 60
    } else if seconds == i64::MIN {
        -153722867280912930
    } else {
        -((-seconds) / 60)
    }
}

/// The heatmap of the dates from `cutoff` on.
pub fn heatmap(rows: &Vec<DailyStats>, cutoff: &str) -> (r: Vec<HeatmapData>)
    ensures
        r.deep_view() == heatmap_since(rows.deep_view(), cutoff@),
{
    let mut out: Vec<HeatmapData> = Vec::new();
    let mut i: usize = 0;
    assert(rows.deep_view().take(0) =~= Seq::empty());
    assert(out.deep_view() =~= Seq::empty());
    while i < rows.len()
        invariant
            i <= rows.len(),
            out.deep_view() == heatmap_since(rows.deep_view().take(i as int), cutoff@),
        decreases rows.len() - i,
    {
        let ghost next = rows.deep_view().take(i + 1);
        let ghost before = out.deep_view();
        assert(next.last() == rows[i as int].deep_view());
        assert(next.drop_last() =~= rows.deep_view().take(i as int));
        if !str_lt(rows[i].date.as_str(), cutoff) {
            let point = HeatmapData {
                date: rows[i].date.clone(),
                value: minutes(rows[i].total_focus_seconds),
            };
            out.push(point);
            assert(out.deep_view() =~= before.push(
                HeatmapDataView {
                    date: rows[i as int].date@,
                    value: minutes_of(rows[i as int].total_focus_seconds as int),
                },
            ));
        }
        i = i + 1;
    }
    assert(rows.deep_view().take(i as int) =~= rows.deep_view());
    out
}

/// The rollups of the dates from `first` to `last`, both included.
pub fn stats_between(rows: &Vec<DailyStats>, first: &str, last: &str) -> (r: Vec<DailyStats>)
    ensures
        r.deep_view() == rows_between(rows.deep_view(), first@, last@),
{
    let mut out: Vec<DailyStats> = Vec::new();
    let mut i: usize = 0;
    assert(rows.deep_view().take(0) =~= Seq::empty());
    assert(out.deep_view() =~= Seq::empty());
    while i < rows.len()
        invariant
            i <= rows.len(),
            out.deep_view() == rows_between(rows.deep_view().take(i as int), first@, last@),
        decreases rows.len() - i,
    {
        let ghost next = rows.deep_view().take(i + 1);
        let ghost before = out.deep_view();
        assert(next.last() == rows[i as int].deep_view());
        assert(next.drop_last() =~= rows.deep_view().take(i as int));
        if !str_lt(rows[i].date.as_str(), first) && !str_lt(
            last,
            rows[i].date.as_str(),
        ) {
            out.push(rows[i].clone());
            assert(out.deep_view() =~= before.push(rows[i as int].deep_view()));
        }
        i = i + 1;
    }
    assert(rows.deep_view().take(i as int) =~= rows.deep_view());
    out
}

/// The place of a date lies within the ledger or at its end; every rollup in front of it is
/// earlier than the date, and the rollup at it is not.
pub proof fn lemma_slot(rows: Seq<DailyStatsView>, date: Seq<char>)
    ensures
        0 <= slot(rows, date) <= rows.len(),
        forall|j: int| 0 <= j < slot(rows, date) ==> precedes(#[trigger] rows[j].date, date),
        slot(rows, date) < rows.len() ==> !precedes(rows[slot(rows, date)].date, date),
    decreases rows.len(),
{
    if rows.len() > 0 && precedes(rows[0].date, date) {
        let rest = rows.drop_first();
        lemma_slot(rest, date);
        assert forall|j: int| 0 <= j < slot(rows, date) implies precedes(
            #[trigger] rows[j].date,
            date,
        ) by {
            if j > 0 {
                assert(rows[j] == rest[j - 1]);
            }
        }
        if slot(rows, date) < rows.len() {
            assert(rows[slot(rows, date)] == rest[slot(rest, date)]);
        }
    }
}

/// Booking keeps the ledger in the order of its dates.
pub proof fn lemma_booked_keeps_order(rows: Seq<DailyStatsView>, date: Seq<char>, duration: int)
    requires
        ordered(rows),
    ensures
        ordered(booked(rows, date, duration)),
{
    let i = slot(rows, date);
    let after = booked(rows, date, duration);
    lemma_slot(rows, date);
    if !has_date(rows, date) {
        assert forall|a: int, b: int| 0 <= a < b < after.len() implies precedes(
            #[trigger] after[a].date,
            #[trigger] after[b].date,
        ) by {
            if b == i {
                assert(after[a] == rows[a]);
            } else if a == i {
                assert(after[b] == rows[b - 1]);
                lemma_precedes_total(rows[i].date, date);
                if b - 1 > i {
                    assert(precedes(rows[i].date, rows[b - 1].date));
                    lemma_precedes_transitive(date, rows[i].date, rows[b - 1].date);
                }
            } else {
                let ra = if a < i {
                    a
                } else {
                    a - 1
                };
                let rb = if b < i {
                    b
                } else {
                    b - 1
                };
                assert(after[a] == rows[ra]);
                assert(after[b] == rows[rb]);
            }
        }
    } else {
        assert forall|a: int, b: int| 0 <= a < b < after.len() implies precedes(
            #[trigger] after[a].date,
            #[trigger] after[b].date,
        ) by {
            assert(after[a].date == rows[a].date);
            assert(after[b].date == rows[b].date);
        }
    }
}

proof fn lemma_sums_of_update(rows: Seq<DailyStatsView>, i: int, row: DailyStatsView)
    requires
        0 <= i < rows.len(),
    ensures
        ledger_seconds(rows.update(i, row)) == ledger_seconds(rows) - rows[i].total_focus_seconds
            + row.total_focus_seconds,
        ledger_sessions(rows.update(i, row)) == ledger_sessions(rows) - rows[i].session_count
            + row.session_count,
    decreases rows.len(),
{
    let after = rows.update(i, row);
    if i == rows.len() - 1 {
        assert(after.drop_last() =~= rows.drop_last());
    } else {
        lemma_sums_of_update(rows.drop_last(), i, row);
        assert(after.drop_last() =~= rows.drop_last().update(i, row));
    }
}

proof fn lemma_sums_of_insert(rows: Seq<DailyStatsView>, i: int, row: DailyStatsView)
    requires
        0 <= i <= rows.len(),
    ensures
        ledger_seconds(rows.insert(i, row)) == ledger_seconds(rows) + row.total_focus_seconds,
        ledger_sessions(rows.insert(i, row)) == ledger_sessions(rows) + row.session_count,
    decreases rows.len(),
{
    let after = rows.insert(i, row);
    if i == rows.len() {
        assert(after.drop_last() =~= rows);
    } else {
        lemma_sums_of_insert(rows.drop_last(), i, row);
        assert(after.drop_last() =~= rows.drop_last().insert(i, row));
        assert(after.last() == rows.last());
    }
}

/// Booking adds the duration to the focus seconds of the ledger, and one to its sessions.
pub proof fn lemma_booked_sums(rows: Seq<DailyStatsView>, date: Seq<char>, duration: int)
    ensures
        ledger_seconds(booked(rows, date, duration)) == ledger_seconds(rows) + duration,
        ledger_sessions(booked(rows, date, duration)) == ledger_sessions(rows) + 1,
{
    let i = slot(rows, date);
    lemma_slot(rows, date);
    if has_date(rows, date) {
        lemma_sums_of_update(
            rows,
            i,
            DailyStatsView {
                date,
                total_focus_seconds: rows[i].total_focus_seconds + duration,
                session_count: rows[i].session_count + 1,
            },
        );
    } else {
        lemma_sums_of_insert(
            rows,
            i,
            DailyStatsView { date, total_focus_seconds: duration, session_count: 1 },
        );
    }
}

/// Booking a duration that is not negative lowers no rollup: every date of the ledger is
/// still there, with at least the focus seconds and sessions it had.
pub proof fn lemma_booked_never_lowers(
    rows: Seq<DailyStatsView>,
    date: Seq<char>,
    duration: int,
    i: int,
)
    requires
        duration >= 0,
        0 <= i < rows.len(),
    ensures
        exists|j: int|
            0 <= j < booked(rows, date, duration).len() && (#[trigger] booked(
                rows,
                date,
                duration,
            )[j]).date == rows[i].date && booked(rows, date, duration)[j].total_focus_seconds
                >= rows[i].total_focus_seconds && booked(rows, date, duration)[j].session_count
                >= rows[i].session_count,
{
    let after = booked(rows, date, duration);
    lemma_slot(rows, date);
    let j = if has_date(rows, date) || i < slot(rows, date) {
        i
    } else {
        i + 1
    };
    assert(after[j].date == rows[i].date);
}

/// Where every rollup in front of the index `i` is earlier than the date and the rollup at
/// `i` is not, `i` is the place of the date.
pub proof fn lemma_slot_is(rows: Seq<DailyStatsView>, date: Seq<char>, i: int)
    requires
        0 <= i <= rows.len(),
        forall|j: int| 0 <= j < i ==> precedes(#[trigger] rows[j].date, date),
        i < rows.len() ==> !precedes(rows[i].date, date),
    ensures
        slot(rows, date) == i,
{
    lemma_slot(rows, date);
    let k = slot(rows, date);
    if k < i {
        assert(precedes(rows[k].date, date));
    }
    if i < k {
        assert(precedes(rows[i].date, date));
    }
}

proof fn lemma_bookings_commute_apart(
    rows: Seq<DailyStatsView>,
    d1: Seq<char>,
    x1: int,
    d2: Seq<char>,
    x2: int,
)
    requires
        ordered(rows),
        precedes(d1, d2),
    ensures
        booked(booked(rows, d1, x1), d2, x2) == booked(booked(rows, d2, x2), d1, x1),
{
    let s1 = slot(rows, d1);
    let s2 = slot(rows, d2);
    let h1 = has_date(rows, d1);
    let h2 = has_date(rows, d2);
    lemma_slot(rows, d1);
    lemma_slot(rows, d2);
    lemma_precedes_total(d1, d2);
    assert forall|j: int| 0 <= j < s1 implies precedes(#[trigger] rows[j].date, d2) by {
        lemma_precedes_transitive(rows[j].date, d1, d2);
    }
    if s2 < s1 {
        assert(precedes(rows[s2].date, d2));
    }
    if h1 {
        assert(precedes(rows[s1].date, d2));
    }
    assert(s1 <= s2);
    assert(h1 ==> s1 < s2);
    // The date `d1` first.
    let a = booked(rows, d1, x1);
    let a2 = if h1 {
        s2
    } else {
        s2 + 1
    };
    assert forall|j: int| 0 <= j < a2 implies precedes(#[trigger] a[j].date, d2) by {
        if h1 {
            assert(a[j].date == rows[j].date);
        } else if j < s1 {
            assert(a[j] == rows[j]);
        } else if j > s1 {
            assert(a[j] == rows[j - 1]);
        }
    }
    if a2 < a.len() {
        assert(a[a2] == rows[s2]);
    }
    lemma_slot_is(a, d2, a2);
    assert(has_date(a, d2) == h2);
    // The date `d2` first.
    let c = booked(rows, d2, x2);
    assert forall|j: int| 0 <= j < s1 implies precedes(#[trigger] c[j].date, d1) by {
        if h2 {
            assert(c[j].date == rows[j].date);
        } else {
            assert(c[j] == rows[j]);
        }
    }
    if s1 < c.len() {
        if s1 < s2 {
            assert(c[s1] == rows[s1]);
        } else {
            assert(c[s1].date == d2);
        }
    }
    lemma_slot_is(c, d1, s1);
    assert(has_date(c, d1) == h1);
    assert(booked(a, d2, x2) =~= booked(c, d1, x1));
}

/// The order in which two sessions are booked does not matter: the ledger is the same
/// either way. So the ledger, and with it every streak, is a matter of the sessions that
/// were recorded, not of the order in which they came in.
pub proof fn lemma_bookings_commute(
    rows: Seq<DailyStatsView>,
    d1: Seq<char>,
    x1: int,
    d2: Seq<char>,
    x2: int,
)
    requires
        ordered(rows),
    ensures
        booked(booked(rows, d1, x1), d2, x2) == booked(booked(rows, d2, x2), d1, x1),
{
    lemma_precedes_total(d1, d2);
    if d1 == d2 {
        let s = slot(rows, d1);
        lemma_slot(rows, d1);
        let a = booked(rows, d1, x1);
        let c = booked(rows, d1, x2);
        assert forall|j: int| 0 <= j < s implies precedes(#[trigger] a[j].date, d1) by {
            assert(a[j].date == rows[j].date);
        }
        assert forall|j: int| 0 <= j < s implies precedes(#[trigger] c[j].date, d1) by {
            assert(c[j].date == rows[j].date);
        }
        lemma_precedes_total(d1, d1);
        assert(a[s].date == d1);
        assert(c[s].date == d1);
        lemma_slot_is(a, d1, s);
        lemma_slot_is(c, d1, s);
        assert(booked(a, d1, x2) =~= booked(c, d1, x1));
    } else if precedes(d1, d2) {
        lemma_bookings_commute_apart(rows, d1, x1, d2, x2);
    } else {
        lemma_bookings_commute_apart(rows, d2, x2, d1, x1);
    }
}

/// A recorded session, as the ledger sees it: the date on which it started and its seconds.
pub struct Booking {
    pub date: Seq<char>,
    pub duration: int,
}

/// The ledger that results from booking the sessions one after the other, from an empty one.
pub open spec fn replay(sessions: Seq<Booking>) -> Seq<DailyStatsView>
    decreases sessions.len(),
{
    if sessions.len() == 0 {
        Seq::empty()
    } else {
        booked(replay(sessions.drop_last()), sessions.last().date, sessions.last().duration)
    }
}

/// The seconds of all sessions together.
pub open spec fn booked_seconds(sessions: Seq<Booking>) -> int
    decreases sessions.len(),
{
    if sessions.len() == 0 {
        0
    } else {
        booked_seconds(sessions.drop_last()) + sessions.last().duration
    }
}

/// Whatever sessions are recorded for a user, in whatever order: the focus seconds of all
/// rollups together are the seconds of all sessions together, the session counts of all
/// rollups together are the number of sessions, and the ledger is in the order of its dates.
pub proof fn lemma_ledger_matches_sessions(sessions: Seq<Booking>)
    ensures
        ledger_seconds(replay(sessions)) == booked_seconds(sessions),
        ledger_sessions(replay(sessions)) == sessions.len(),
        ordered(replay(sessions)),
    decreases sessions.len(),
{
    if sessions.len() > 0 {
        lemma_ledger_matches_sessions(sessions.drop_last());
        lemma_booked_sums(
            replay(sessions.drop_last()),
            sessions.last().date,
            sessions.last().duration,
        );
        lemma_booked_keeps_order(
            replay(sessions.drop_last()),
            sessions.last().date,
            sessions.last().duration,
        );
    }
}

/// Tells whether the rollups stand in the order of their dates, each date once.
pub fn is_ordered(rows: &Vec<DailyStats>) -> (r: bool)
    ensures
        r == ordered(rows.deep_view()),
{
    if rows.len() < 2 {
        return true;
    }
    let mut j: usize = 1;
    while j < rows.len()
        invariant
            1 <= j <= rows.len(),
            forall|a: int, b: int|
                0 <= a < b < j ==> precedes(
                    #[trigger] rows.deep_view()[a].date,
                    #[trigger] rows.deep_view()[b].date,
                ),
        decreases rows.len() - j,
    {
        assert(rows.deep_view()[j - 1] == rows[j - 1].deep_view());
        assert(rows.deep_view()[j as int] == rows[j as int].deep_view());
        if !str_lt(rows[j - 1].date.as_str(), rows[j].date.as_str()) {
            assert(!precedes(rows.deep_view()[j - 1].date, rows.deep_view()[j as int].date));
            return false;
        }
        proof {
            assert forall|a: int, b: int| 0 <= a < b < j + 1 implies precedes(
                #[trigger] rows.deep_view()[a].date,
                #[trigger] rows.deep_view()[b].date,
            ) by {
                if b == j && a < j - 1 {
                    lemma_precedes_transitive(
                        rows.deep_view()[a].date,
                        rows.deep_view()[j - 1].date,
                        rows.deep_view()[j as int].date,
                    );
                }
            }
        }
        j = j + 1;
    }
    true
}

/// Why a session with the given start time and duration cannot be booked, if it cannot.
pub open spec fn book_fault(rows: Seq<DailyStatsView>, started_at: Seq<char>, duration: int) -> Option<
    LedgerError,
> {
    if duration < 0 {
        Some(LedgerError::NegativeDuration)
    } else if session_date(started_at) is None {
        Some(LedgerError::ShortTimestamp)
    } else if exceeds(rows, session_date(started_at)->0, duration) {
        Some(LedgerError::Overflow)
    } else {
        None
    }
}

/// The ledger after the sessions were booked one after the other, each on the date on which
/// it started, or the failure of the first session that cannot be booked.
pub open spec fn booked_all(rows: Seq<DailyStatsView>, sessions: Seq<FocusSessionView>) -> Result<
    Seq<DailyStatsView>,
    LedgerError,
>
    decreases sessions.len(),
{
    if sessions.len() == 0 {
        Ok(rows)
    } else {
        match booked_all(rows, sessions.drop_last()) {
            Err(e) => Err(e),
            Ok(before) => match book_fault(
                before,
                sessions.last().started_at,
                sessions.last().duration_seconds,
            ) {
                Some(e) => Err(e),
                None => Ok(
                    booked(
                        before,
                        session_date(sessions.last().started_at)->0,
                        sessions.last().duration_seconds,
                    ),
                ),
            },
        }
    }
}

/// The sessions from the index `from` on; none where there are not that many.
pub open spec fn sessions_from(sessions: Seq<FocusSessionView>, from: int) -> Seq<FocusSessionView> {
    if 0 <= from <= sessions.len() {
        sessions.skip(from)
    } else {
        Seq::empty()
    }
}

/// Books the sessions from the index `from` on, one after the other, each on the date on
/// which it started. All of them are booked, or none: where one cannot be booked, the ledger
/// stays as it was.
pub fn book_sessions(rows: &mut Vec<DailyStats>, sessions: &Vec<FocusSession>, from: usize) -> (r:
    Result<(), LedgerError>)
    ensures
        match r {
            Ok(()) => booked_all(
                old(rows).deep_view(),
                sessions_from(sessions.deep_view(), from as int),
            ) == Ok::<Seq<DailyStatsView>, LedgerError>(final(rows).deep_view()),
            Err(e) => {
                &&& booked_all(
                    old(rows).deep_view(),
                    sessions_from(sessions.deep_view(), from as int),
                ) == Err::<Seq<DailyStatsView>, LedgerError>(e)
                &&& final(rows).deep_view() == old(rows).deep_view()
            },
        },
{
    if from > sessions.len() {
        return Ok(());
    }
    let ghost tail = sessions.deep_view().skip(from as int);
    let mut work = rows.clone();
    let mut i: usize = from;
    assert(tail.take(0) =~= Seq::empty());
    while i < sessions.len()
        invariant
            from <= i <= sessions.len(),
            tail == sessions.deep_view().skip(from as int),
            booked_all(rows.deep_view(), tail.take(i - from)) == Ok::<
                Seq<DailyStatsView>,
                LedgerError,
            >(work.deep_view()),
        decreases sessions.len() - i,
    {
        let ghost next = tail.take(i - from + 1);
        assert(next.last() == sessions[i as int].deep_view());
        assert(next.drop_last() =~= tail.take(i - from));
        match book_session(
            &mut work,
            sessions[i].started_at.as_str(),
            sessions[i].duration_seconds,
        ) {
            Ok(()) => {},
            Err(e) => {
                proof {
                    lemma_booked_all_fails_on(rows.deep_view(), tail, i - from + 1);
                }
                return Err(e);
            },
        }
        i = i + 1;
    }
    assert(tail.take(i - from) =~= tail);
    *rows = work;
    Ok(())
}

/// Where the first `k` of the sessions cannot all be booked, the sessions cannot, and for the
/// same reason.
pub proof fn lemma_booked_all_fails_on(
    rows: Seq<DailyStatsView>,
    sessions: Seq<FocusSessionView>,
    k: int,
)
    requires
        0 <= k <= sessions.len(),
        booked_all(rows, sessions.take(k)) is Err,
    ensures
        booked_all(rows, sessions) == booked_all(rows, sessions.take(k)),
    decreases sessions.len() - k,
{
    if k < sessions.len() {
        assert(sessions.take(k + 1).drop_last() =~= sessions.take(k));
        lemma_booked_all_fails_on(rows, sessions, k + 1);
    } else {
        assert(sessions.take(k) =~= sessions);
    }
}

/// Booking sessions keeps the ledger in the order of its dates and adds their seconds to
/// its focus seconds.
pub proof fn lemma_booked_all(rows: Seq<DailyStatsView>, sessions: Seq<FocusSessionView>)
    requires
        booked_all(rows, sessions) is Ok,
    ensures
        ordered(rows) ==> ordered(booked_all(rows, sessions)->Ok_0),
        ledger_seconds(booked_all(rows, sessions)->Ok_0) == ledger_seconds(rows)
            + sessions_seconds(sessions),
    decreases sessions.len(),
{
    if sessions.len() > 0 {
        let before = booked_all(rows, sessions.drop_last())->Ok_0;
        let date = session_date(sessions.last().started_at)->0;
        lemma_booked_all(rows, sessions.drop_last());
        lemma_booked_sums(before, date, sessions.last().duration_seconds);
        if ordered(rows) {
            lemma_booked_keeps_order(before, date, sessions.last().duration_seconds);
        }
    }
}

/// Whether the ledger has a rollup of the date.
pub open spec fn dated(rows: Seq<DailyStatsView>, date: Seq<char>) -> bool {
    exists|i: int| 0 <= i < rows.len() && (#[trigger] rows[i]).date == date
}

/// The active dates of a ledger that is in order stand in their order, and each is the date
/// of a rollup.
pub proof fn lemma_active_dates_ascending(rows: Seq<DailyStatsView>)
    requires
        ordered(rows),
    ensures
        ascending(active_dates(rows)),
        forall|k: int|
            0 <= k < active_dates(rows).len() ==> dated(rows, #[trigger] active_dates(rows)[k]),
    decreases rows.len(),
{
    if rows.len() > 0 {
        let head = rows.drop_last();
        let dates = active_dates(rows);
        let before = active_dates(head);
        assert forall|p: int, q: int| 0 <= p < q < head.len() implies precedes(
            #[trigger] head[p].date,
            #[trigger] head[q].date,
        ) by {
            assert(precedes(rows[p].date, rows[q].date));
        }
        lemma_active_dates_ascending(head);
        assert forall|k: int| 0 <= k < dates.len() implies dated(rows, #[trigger] dates[k]) by {
            if k < before.len() {
                assert(dates[k] == before[k]);
                assert(dated(head, before[k]));
                let i = choose|i: int| 0 <= i < head.len() && (#[trigger] head[i]).date == before[k];
                assert(rows[i].date == dates[k]);
            } else {
                assert(rows[rows.len() - 1].date == dates[k]);
            }
        }
        assert forall|p: int, q: int| 0 <= p < q < dates.len() implies precedes(
            #[trigger] dates[p],
            #[trigger] dates[q],
        ) by {
            assert(dates[p] == before[p]);
            if q < before.len() {
                assert(dates[q] == before[q]);
            } else {
                assert(dated(head, before[p]));
                let i = choose|i: int| 0 <= i < head.len() && (#[trigger] head[i]).date == before[p];
                assert(precedes(rows[i].date, rows[rows.len() - 1].date));
            }
        }
    }
}

/// The streaks are a matter of the set of active dates alone: two ledgers that are in order
/// and have the same active dates have the same list of active dates, whatever the order in
/// which the sessions were recorded, whatever the rollups hold and whatever today is; so
/// their longest streaks are the same, and their current streaks are.
pub proof fn lemma_streaks_depend_on_active_dates_only(
    a: Seq<DailyStatsView>,
    b: Seq<DailyStatsView>,
    today: Seq<char>,
    yesterday: Seq<char>,
)
    requires
        ordered(a),
        ordered(b),
        forall|date: Seq<char>| active_dates(a).contains(date) <==> active_dates(b).contains(date),
    ensures
        active_dates(a) == active_dates(b),
        longest_streak_of(active_dates(a)) == longest_streak_of(active_dates(b)),
        current_streak_of(active_dates(a).reverse(), today, yesterday) == current_streak_of(
            active_dates(b).reverse(),
            today,
            yesterday,
        ),
{
    lemma_active_dates_ascending(a);
    lemma_active_dates_ascending(b);
    lemma_ascending_unique(active_dates(a), active_dates(b));
}

} // verus!
