//! Streaks: runs of consecutive calendar days among a user's active dates.
//!
//! A date is a text of the form `YYYY-MM-DD`; its day is the number that the calendar gives
//! it, and a text that is no date has none. Two dates are consecutive where their days differ
//! by one, so the length of a day never matters. A scan looks at a day only when it reaches
//! it: a text that is no date fails the scan only if the scan gets there.

use crate::calendar::{day_number, day_number_of};
use vstd::prelude::*;

verus! {

/// The failure of a scan: the date at `index` is no calendar date.
#[derive(Debug)]
pub struct InvalidDate {
    pub index: usize,
    pub reason: String,
}

/// Whether both days are known and `later` is the day after `earlier`.
pub open spec fn follows(later: Option<i32>, earlier: Option<i32>) -> bool {
    later is Some && earlier is Some && later->0 - earlier->0 == 1
}

/// The scan for the current streak, over days in descending order: it has counted `count`
/// days up to index `i - 1` and goes on from index `i`. It stops at the first pair that is not
/// consecutive. `Err` holds the index of a day that is not known.
pub open spec fn backward_run(days: Seq<Option<i32>>, i: int, count: int) -> Result<int, int>
    decreases days.len() - i,
{
    if i < 1 || i >= days.len() {
        Ok(count)
    } else if days[i - 1] is None {
        Err(i - 1)
    } else if days[i] is None {
        Err(i)
    } else if follows(days[i - 1], days[i]) {
        backward_run(days, i + 1, count + 1)
    } else {
        Ok(count)
    }
}

/// The length of the run of consecutive days that begins at the first of the days, which
/// come in descending order: 0 where there is no day.
pub open spec fn leading_run_of(days: Seq<Option<i32>>) -> Result<int, int> {
    if days.len() == 0 {
        Ok(0)
    } else {
        backward_run(days, 1, 1)
    }
}

/// The scan for the longest streak, over days in ascending order: up to index `i - 1` the
/// run that ends there has `current` days and the best run seen has `longest`.
pub open spec fn forward_scan(days: Seq<Option<i32>>, i: int, current: int, longest: int) -> Result<
    int,
    int,
>
    decreases days.len() - i,
{
    if i < 1 || i >= days.len() {
        Ok(longest)
    } else if days[i - 1] is None {
        Err(i - 1)
    } else if days[i] is None {
        Err(i)
    } else if follows(days[i], days[i - 1]) {
        forward_scan(days, i + 1, current + 1, if current + 1 > longest {
            current + 1
        } else {
            longest
        })
    } else {
        forward_scan(days, i + 1, 1, longest)
    }
}

/// The length of the longest run of consecutive days among the days, which come in
/// ascending order: 0 where there is no day.
pub open spec fn longest_run_of(days: Seq<Option<i32>>) -> Result<int, int> {
    if days.len() == 0 {
        Ok(0)
    } else {
        forward_scan(days, 1, 1, 1)
    }
}

/// The days of dates.
pub open spec fn days_of(dates: Seq<Seq<char>>) -> Seq<Option<i32>> {
    Seq::new(dates.len(), |i: int| day_number_of(dates[i]))
}

/// The current streak of dates in descending order, given the texts of today's and
/// yesterday's date: 0 where there is no date or the most recent one is neither today nor
/// yesterday, else the length of the run that begins at the most recent date.
pub open spec fn current_streak_of(dates: Seq<Seq<char>>, today: Seq<char>, yesterday: Seq<char>) -> Result<
    int,
    int,
> {
    if dates.len() == 0 {
        Ok(0)
    } else if dates[0] != today && dates[0] != yesterday {
        Ok(0)
    } else {
        leading_run_of(days_of(dates))
    }
}

/// The longest streak of dates in ascending order.
pub open spec fn longest_streak_of(dates: Seq<Seq<char>>) -> Result<int, int> {
    longest_run_of(days_of(dates))
}

/// The outcome of a scan of days, as plain numbers.
pub open spec fn outcome(r: Result<i64, usize>) -> Result<int, int> {
    match r {
        Ok(n) => Ok(n as int),
        Err(index) => Err(index as int),
    }
}

/// Whether an outcome of a scan of dates is the outcome that the scan's definition gives.
pub open spec fn agrees(r: Result<i64, InvalidDate>, expected: Result<int, int>) -> bool {
    match (r, expected) {
        (Ok(n), Ok(m)) => n == m,
        (Err(e), Err(i)) => e.index == i,
        _ => false,
    }
}

/// The length of the run of consecutive days that begins at the first of the days, which
/// come in descending order, or the index of the day that the scan met and that is not
/// known. A run is never longer than there are days in the calendar, however many days are
/// given.
pub fn leading_run(days: &Vec<Option<i32>>) -> (r: Result<i64, usize>)
    ensures
        outcome(r) == leading_run_of(days@),
{
    if days.len() == 0 {
        return Ok(0);
    }
    if days.len() == 1 {
        return Ok(1);
    }
    let mut prev: i32 = match days[0] {
        Some(n) => n,
        None => {
            return Err(0);
        },
    };
    let mut streak: i64 = 1;
    let mut i: usize = 1;
    while i < days.len()
        invariant
            1 <= i <= days.len(),
            1 <= streak <= i32::MAX - prev + 1,
            days@[i - 1] == Some(prev),
            backward_run(days@, 1, 1) == backward_run(days@, i as int, streak as int),
        decreases days.len() - i,
    {
        let curr: i32 = match days[i] {
            Some(n) => n,
            None => {
                return Err(i);
            },
        };
        if prev as i64 - curr as i64 == 1 {
            streak = streak + 1;
            prev = curr;
            i = i + 1;
        } else {
            return Ok(streak);
        }
    }
    Ok(streak)
}

/// The length of the longest run of consecutive days among the days, which come in
/// ascending order, or the index of the day that the scan met and that is not known.
pub fn longest_run(days: &Vec<Option<i32>>) -> (r: Result<i64, usize>)
    ensures
        outcome(r) == longest_run_of(days@),
{
    if days.len() == 0 {
        return Ok(0);
    }
    if days.len() == 1 {
        return Ok(1);
    }
    let mut prev: i32 = match days[0] {
        Some(n) => n,
        None => {
            return Err(0);
        },
    };
    let mut longest: i64 = 1;
    let mut current: i64 = 1;
    let mut i: usize = 1;
    while i < days.len()
        invariant
            1 <= i <= days.len(),
            1 <= current <= prev - i32::MIN + 1,
            1 <= longest <= 0x1_0000_0000,
            days@[i - 1] == Some(prev),
            forward_scan(days@, 1, 1, 1) == forward_scan(
                days@,
                i as int,
                current as int,
                longest as int,
            ),
        decreases days.len() - i,
    {
        let curr: i32 = match days[i] {
            Some(n) => n,
            None => {
                return Err(i);
            },
        };
        if curr as i64 - prev as i64 == 1 {
            current = current + 1;
            if current > longest {
                longest = current;
            }
        } else {
            current = 1;
        }
        prev = curr;
        i = i + 1;
    }
    Ok(longest)
}

/// Reads the day of each date.
pub fn read_days(dates: &Vec<String>) -> (r: Vec<Option<i32>>)
    ensures
        r@ == days_of(dates.deep_view()),
{
    let mut days: Vec<Option<i32>> = Vec::new();
    let mut i: usize = 0;
    while i < dates.len()
        invariant
            i <= dates.len(),
            days.len() == i,
            forall|j: int| 0 <= j < i ==> days@[j] == day_number_of(#[trigger] dates[j]@),
        decreases dates.len() - i,
    {
        let day = match day_number(dates[i].as_str()) {
            Ok(n) => Some(n),
            Err(_) => None,
        };
        days.push(day);
        i = i + 1;
    }
    assert(days@ =~= days_of(dates.deep_view()));
    days
}

fn failure_at(dates: &Vec<String>, index: usize) -> (r: InvalidDate)
    requires
        index < dates.len(),
    ensures
        r.index == index,
{
    let reason = match day_number(dates[index].as_str()) {
        Ok(_) => String::new(),
        Err(e) => e.reason,
    };
    InvalidDate { index, reason }
}

/// The current streak of a user's active dates, which come in descending order and without
/// repetition, given the texts of today's and of yesterday's date.
pub fn current_streak(dates: &Vec<String>, today: &str, yesterday: &str) -> (r: Result<
    i64,
    InvalidDate,
>)
    ensures
        agrees(r, current_streak_of(dates.deep_view(), today@, yesterday@)),
{
    if dates.len() == 0 {
        return Ok(0);
    }
    if *dates[0].as_str() != *today && *dates[0].as_str() != *yesterday {
        return Ok(0);
    }
    let days = read_days(dates);
    proof {
        lemma_scan_stays_inside(days@);
    }
    match leading_run(&days) {
        Ok(n) => Ok(n),
        Err(index) => Err(failure_at(dates, index)),
    }
}

/// The longest streak of a user's active dates, which come in ascending order and without
/// repetition.
pub fn longest_streak(dates: &Vec<String>) -> (r: Result<i64, InvalidDate>)
    ensures
        agrees(r, longest_streak_of(dates.deep_view())),
{
    let days = read_days(dates);
    proof {
        lemma_scan_stays_inside(days@);
    }
    match longest_run(&days) {
        Ok(n) => Ok(n),
        Err(index) => Err(failure_at(dates, index)),
    }
}

proof fn lemma_backward_run_inside(days: Seq<Option<i32>>, i: int, count: int)
    requires
        1 <= i,
        backward_run(days, i, count) is Err,
    ensures
        0 <= backward_run(days, i, count)->Err_0 < days.len(),
    decreases days.len() - i,
{
    if i < days.len() && days[i - 1] is Some && days[i] is Some && follows(days[i - 1], days[i]) {
        lemma_backward_run_inside(days, i + 1, count + 1);
    }
}

proof fn lemma_forward_scan_inside(days: Seq<Option<i32>>, i: int, current: int, longest: int)
    requires
        1 <= i,
        forward_scan(days, i, current, longest) is Err,
    ensures
        0 <= forward_scan(days, i, current, longest)->Err_0 < days.len(),
    decreases days.len() - i,
{
    if i < days.len() && days[i - 1] is Some && days[i] is Some {
        if follows(days[i], days[i - 1]) {
            lemma_forward_scan_inside(days, i + 1, current + 1, if current + 1 > longest {
                current + 1
            } else {
                longest
            });
        } else {
            lemma_forward_scan_inside(days, i + 1, 1, longest);
        }
    }
}

/// A scan that fails names a day that is among the days.
pub proof fn lemma_scan_stays_inside(days: Seq<Option<i32>>)
    ensures
        leading_run_of(days) is Err ==> 0 <= leading_run_of(days)->Err_0 < days.len(),
        longest_run_of(days) is Err ==> 0 <= longest_run_of(days)->Err_0 < days.len(),
{
    if days.len() > 0 {
        if leading_run_of(days) is Err {
            lemma_backward_run_inside(days, 1, 1);
        }
        if longest_run_of(days) is Err {
            lemma_forward_scan_inside(days, 1, 1, 1);
        }
    }
}

/// Whether the first `k` of the days, which come in descending order, are a run: each is the
/// day before the one in front of it.
pub open spec fn is_leading_run(days: Seq<Option<i32>>, k: int) -> bool {
    &&& 1 <= k <= days.len()
    &&& forall|i: int| 1 <= i < k ==> follows(#[trigger] days[i - 1], days[i])
}

/// Whether the days at the indices `a` to `b`, which come in ascending order, are a run:
/// each is the day after the one in front of it.
pub open spec fn is_run(days: Seq<Option<i32>>, a: int, b: int) -> bool {
    &&& 0 <= a <= b < days.len()
    &&& forall|j: int| a < j <= b ==> follows(#[trigger] days[j], days[j - 1])
}

proof fn lemma_backward_run(days: Seq<Option<i32>>, i: int, count: int)
    requires
        1 <= i <= days.len(),
        backward_run(days, i, count) is Ok,
    ensures
        ({
            let k = backward_run(days, i, count)->Ok_0;
            let stop = i + (k - count);
            &&& k >= count
            &&& stop <= days.len()
            &&& forall|j: int| i <= j < stop ==> follows(#[trigger] days[j - 1], days[j])
            &&& (stop == days.len() || !follows(days[stop - 1], days[stop]))
        }),
    decreases days.len() - i,
{
    if i < days.len() && follows(days[i - 1], days[i]) {
        lemma_backward_run(days, i + 1, count + 1);
    }
}

/// The current streak is 0 where there is no date, and where the most recent date is neither
/// today nor yesterday.
pub proof fn lemma_current_streak_broken(
    dates: Seq<Seq<char>>,
    today: Seq<char>,
    yesterday: Seq<char>,
)
    requires
        dates.len() == 0 || (dates[0] != today && dates[0] != yesterday),
    ensures
        current_streak_of(dates, today, yesterday) == Ok::<int, int>(0),
{
}

/// The run that begins at the first day is the maximal one: the first `k` days are a run of
/// consecutive days, and no more than `k` are.
pub proof fn lemma_leading_run_is_maximal(days: Seq<Option<i32>>)
    requires
        days.len() > 0,
        leading_run_of(days) is Ok,
    ensures
        is_leading_run(days, leading_run_of(days)->Ok_0),
        forall|m: int| is_leading_run(days, m) ==> m <= leading_run_of(days)->Ok_0,
{
    let k = leading_run_of(days)->Ok_0;
    lemma_backward_run(days, 1, 1);
    assert forall|m: int| is_leading_run(days, m) implies m <= k by {
        if m > k {
            assert(follows(days[k - 1], days[k]));
        }
    }
}

/// Where the most recent date is today or yesterday, the current streak is the length of the
/// maximal run of consecutive days that ends at the most recent date: the first `k` dates are
/// such a run, and no more than `k` are.
pub proof fn lemma_current_streak_is_maximal_run(
    dates: Seq<Seq<char>>,
    today: Seq<char>,
    yesterday: Seq<char>,
)
    requires
        dates.len() > 0,
        dates[0] == today || dates[0] == yesterday,
        current_streak_of(dates, today, yesterday) is Ok,
    ensures
        is_leading_run(days_of(dates), current_streak_of(dates, today, yesterday)->Ok_0),
        forall|m: int|
            is_leading_run(days_of(dates), m) ==> m <= current_streak_of(
                dates,
                today,
                yesterday,
            )->Ok_0,
{
    lemma_leading_run_is_maximal(days_of(dates));
}

proof fn lemma_forward_scan_grows(days: Seq<Option<i32>>, i: int, current: int, longest: int)
    requires
        forward_scan(days, i, current, longest) is Ok,
    ensures
        forward_scan(days, i, current, longest)->Ok_0 >= longest,
    decreases days.len() - i,
{
    if 1 <= i < days.len() {
        if follows(days[i], days[i - 1]) {
            lemma_forward_scan_grows(days, i + 1, current + 1, if current + 1 > longest {
                current + 1
            } else {
                longest
            });
        } else {
            lemma_forward_scan_grows(days, i + 1, 1, longest);
        }
    }
}

proof fn lemma_forward_scan_covers(
    days: Seq<Option<i32>>,
    i: int,
    current: int,
    longest: int,
    a: int,
    b: int,
)
    requires
        1 <= i <= days.len(),
        1 <= current <= longest,
        forward_scan(days, i, current, longest) is Ok,
        is_run(days, a, b),
        i - 1 <= b,
        current >= i - a,
    ensures
        forward_scan(days, i, current, longest)->Ok_0 >= b - a + 1,
    decreases days.len() - i,
{
    if i > b {
        lemma_forward_scan_grows(days, i, current, longest);
    } else {
        if follows(days[i], days[i - 1]) {
            lemma_forward_scan_covers(days, i + 1, current + 1, if current + 1 > longest {
                current + 1
            } else {
                longest
            }, a, b);
        } else {
            lemma_forward_scan_covers(days, i + 1, 1, longest, a, b);
        }
    }
}

/// The longest run is at least as long as every run of consecutive days among the days.
pub proof fn lemma_longest_run_covers_runs(days: Seq<Option<i32>>, a: int, b: int)
    requires
        longest_run_of(days) is Ok,
        is_run(days, a, b),
    ensures
        longest_run_of(days)->Ok_0 >= b - a + 1,
{
    lemma_forward_scan_covers(days, 1, 1, 1, a, b);
}

/// The longest run among days in ascending order is never shorter than the run that begins
/// at the first of the same days in descending order.
pub proof fn lemma_longest_run_at_least_leading(ascending: Seq<Option<i32>>)
    requires
        longest_run_of(ascending) is Ok,
        leading_run_of(ascending.reverse()) is Ok,
    ensures
        longest_run_of(ascending)->Ok_0 >= leading_run_of(ascending.reverse())->Ok_0,
{
    let descending = ascending.reverse();
    let n = ascending.len() as int;
    let k = leading_run_of(descending)->Ok_0;
    if n > 0 {
        lemma_leading_run_is_maximal(descending);
        assert forall|j: int| n - k < j <= n - 1 implies follows(
            #[trigger] ascending[j],
            ascending[j - 1],
        ) by {
            let i = n - j;
            assert(1 <= i < k);
            assert(follows(descending[i - 1], descending[i]));
            assert(descending[i - 1] == ascending[j]);
            assert(descending[i] == ascending[j - 1]);
        }
        lemma_longest_run_covers_runs(ascending, n - k, n - 1);
    }
}

/// The longest streak is never shorter than the current streak: for the ascending dates
/// `ascending` and the same dates in descending order, whatever today and yesterday are.
pub proof fn lemma_longest_at_least_current(
    ascending: Seq<Seq<char>>,
    today: Seq<char>,
    yesterday: Seq<char>,
)
    requires
        longest_streak_of(ascending) is Ok,
        current_streak_of(ascending.reverse(), today, yesterday) is Ok,
    ensures
        longest_streak_of(ascending)->Ok_0 >= current_streak_of(
            ascending.reverse(),
            today,
            yesterday,
        )->Ok_0,
{
    let descending = ascending.reverse();
    assert(days_of(descending) =~= days_of(ascending).reverse());
    if ascending.len() > 0 {
        lemma_forward_scan_grows(days_of(ascending), 1, 1, 1);
        if descending[0] == today || descending[0] == yesterday {
            lemma_longest_run_at_least_leading(days_of(ascending));
        }
    }
}

/// Whether a day is known and is the day `d`.
pub open spec fn is_day(day: Option<i32>, d: int) -> bool {
    day is Some && day->0 == d
}

/// The set of the days that are known.
pub open spec fn day_set(days: Seq<Option<i32>>) -> Set<int> {
    Set::new(|d: int| exists|i: int| 0 <= i < days.len() && is_day(#[trigger] days[i], d))
}

/// Whether every day is known and lies after the one in front of it.
pub open spec fn strictly_ascending(days: Seq<Option<i32>>) -> bool {
    &&& forall|i: int| 0 <= i < days.len() ==> (#[trigger] days[i]) is Some
    &&& forall|i: int, j: int|
        0 <= i < j < days.len() ==> (#[trigger] days[i])->0 < (#[trigger] days[j])->0
}

/// Whether the `count` days from `start` on are all among `set`.
pub open spec fn holds_days(set: Set<int>, start: int, count: int) -> bool {
    forall|d: int| start <= d < start + count ==> set.contains(d)
}

proof fn lemma_forward_scan_witness(
    days: Seq<Option<i32>>,
    i: int,
    current: int,
    longest: int,
    la: int,
    lb: int,
) -> (run: (int, int))
    requires
        1 <= i <= days.len(),
        forall|j: int| 0 <= j < days.len() ==> (#[trigger] days[j]) is Some,
        is_run(days, i - current, i - 1),
        is_run(days, la, lb),
        lb - la + 1 == longest,
    ensures
        forward_scan(days, i, current, longest) is Ok,
        is_run(days, run.0, run.1),
        run.1 - run.0 + 1 == forward_scan(days, i, current, longest)->Ok_0,
    decreases days.len() - i,
{
    if i >= days.len() {
        (la, lb)
    } else if follows(days[i], days[i - 1]) {
        if current + 1 > longest {
            lemma_forward_scan_witness(days, i + 1, current + 1, current + 1, i - current, i)
        } else {
            lemma_forward_scan_witness(days, i + 1, current + 1, longest, la, lb)
        }
    } else {
        lemma_forward_scan_witness(days, i + 1, 1, longest, la, lb)
    }
}

proof fn lemma_run_days(days: Seq<Option<i32>>, a: int, b: int, j: int)
    requires
        is_run(days, a, b),
        a <= j <= b,
    ensures
        days[a] is Some ==> days[j] is Some && days[j]->0 == days[a]->0 + (j - a),
    decreases j - a,
{
    if j > a {
        lemma_run_days(days, a, b, j - 1);
        assert(follows(days[j], days[j - 1]));
    }
}

proof fn lemma_days_form_run(days: Seq<Option<i32>>, start: int, count: int) -> (a: int)
    requires
        strictly_ascending(days),
        count >= 1,
        holds_days(day_set(days), start, count),
    ensures
        is_run(days, a, a + count - 1),
        days[a] is Some,
        days[a]->0 == start,
    decreases count,
{
    if count == 1 {
        assert(day_set(days).contains(start));
        let a = choose|i: int| 0 <= i < days.len() && is_day(#[trigger] days[i], start);
        a
    } else {
        assert(holds_days(day_set(days), start, count - 1));
        let a = lemma_days_form_run(days, start, count - 1);
        let last = a + count - 2;
        let next = start + count - 1;
        lemma_run_days(days, a, last, last);
        assert(day_set(days).contains(next));
        let m = choose|i: int| 0 <= i < days.len() && is_day(#[trigger] days[i], next);
        if m <= last {
            if m < last {
                assert(days[m]->0 < days[last]->0);
            }
            assert(false);
        }
        if m > last + 1 {
            assert(days[last]->0 < days[last + 1]->0);
            assert(days[last + 1]->0 < days[m]->0);
            assert(false);
        }
        assert(follows(days[last + 1], days[last]));
        a
    }
}

/// The longest run is the greatest number of consecutive days that all lie among the days:
/// no stretch of consecutive days among them is longer, and one is that long. So the longest
/// streak is a matter of the set of days alone.
pub proof fn lemma_longest_run_of_day_set(days: Seq<Option<i32>>)
    requires
        strictly_ascending(days),
    ensures
        longest_run_of(days) is Ok,
        forall|start: int, count: int| #[trigger]
            holds_days(day_set(days), start, count) ==> count <= longest_run_of(days)->Ok_0,
        days.len() > 0 ==> exists|start: int| #[trigger]
            holds_days(day_set(days), start, longest_run_of(days)->Ok_0),
{
    if days.len() == 0 {
        assert forall|start: int, count: int| #[trigger]
            holds_days(day_set(days), start, count) implies count <= 0 by {
            if count > 0 {
                assert(day_set(days).contains(start));
            }
        }
    } else {
        let run = lemma_forward_scan_witness(days, 1, 1, 1, 0, 0);
        let best = longest_run_of(days)->Ok_0;
        let first = days[run.0]->0 as int;
        assert forall|d: int| first <= d < first + best implies day_set(days).contains(d) by {
            lemma_run_days(days, run.0, run.1, run.0 + (d - first));
            assert(is_day(days[run.0 + (d - first)], d));
        }
        assert(holds_days(day_set(days), first, best));
        assert forall|start: int, count: int| #[trigger]
            holds_days(day_set(days), start, count) implies count <= best by {
            if count >= 1 {
                let a = lemma_days_form_run(days, start, count);
                lemma_longest_run_covers_runs(days, a, a + count - 1);
            }
        }
    }
}

/// The longest streak does not depend on the order in which the history is looked at: two
/// lists of days that hold the same days have the same longest run.
pub proof fn lemma_longest_run_depends_on_days_only(a: Seq<Option<i32>>, b: Seq<Option<i32>>)
    requires
        strictly_ascending(a),
        strictly_ascending(b),
        day_set(a) == day_set(b),
    ensures
        longest_run_of(a) == longest_run_of(b),
{
    lemma_longest_run_of_day_set(a);
    lemma_longest_run_of_day_set(b);
    if a.len() > 0 {
        assert(is_day(a[0], a[0]->0 as int));
        assert(day_set(a).contains(a[0]->0 as int));
    }
    if b.len() > 0 {
        assert(is_day(b[0], b[0]->0 as int));
        assert(day_set(b).contains(b[0]->0 as int));
    }
    if a.len() > 0 && b.len() > 0 {
        let sa = choose|start: int| #[trigger] holds_days(day_set(a), start, longest_run_of(a)->Ok_0);
        let sb = choose|start: int| #[trigger] holds_days(day_set(b), start, longest_run_of(b)->Ok_0);
        assert(holds_days(day_set(b), sa, longest_run_of(a)->Ok_0));
        assert(holds_days(day_set(a), sb, longest_run_of(b)->Ok_0));
    }
}

/// Whether every day is known and lies before the one in front of it.
pub open spec fn strictly_descending(days: Seq<Option<i32>>) -> bool {
    &&& forall|i: int| 0 <= i < days.len() ==> (#[trigger] days[i]) is Some
    &&& forall|i: int, j: int|
        0 <= i < j < days.len() ==> (#[trigger] days[i])->0 > (#[trigger] days[j])->0
}

/// For days that come latest first, the run that begins at the first day `m` has the
/// length `k` for which the `k` days up to `m` are all among the days and the day before
/// them is not.
pub proof fn lemma_leading_run_of_day_set(days: Seq<Option<i32>>)
    requires
        strictly_descending(days),
        days.len() > 0,
    ensures
        leading_run_of(days) is Ok,
        leading_run_of(days)->Ok_0 >= 1,
        holds_days(
            day_set(days),
            days[0]->0 - leading_run_of(days)->Ok_0 + 1,
            leading_run_of(days)->Ok_0,
        ),
        !day_set(days).contains(days[0]->0 - leading_run_of(days)->Ok_0),
{
    lemma_backward_run_known(days, 1, 1);
    lemma_leading_run_is_maximal(days);
    let k = leading_run_of(days)->Ok_0;
    let m = days[0]->0 as int;
    assert forall|j: int| 0 <= j < k implies (#[trigger] days[j])->0 == m - j by {
        lemma_leading_days(days, k, j);
    }
    assert forall|d: int| m - k + 1 <= d < m + 1 implies day_set(days).contains(d) by {
        assert(is_day(days[m - d], d));
    }
    if day_set(days).contains(m - k) {
        let i = choose|i: int| 0 <= i < days.len() && is_day(#[trigger] days[i], m - k);
        if i < k {
            assert(days[i]->0 == m - i);
        } else {
            assert(days[k - 1]->0 == m - (k - 1));
            if i > k {
                assert(days[k]->0 > days[i]->0);
            }
            assert(days[k - 1]->0 > days[k]->0);
            assert(!follows(days[k - 1], days[k])) by {
                if follows(days[k - 1], days[k]) {
                    assert forall|p: int| 1 <= p < k + 1 implies follows(
                        #[trigger] days[p - 1],
                        days[p],
                    ) by {}
                    assert(is_leading_run(days, k + 1));
                }
            }
        }
        assert(false);
    }
}

proof fn lemma_backward_run_known(days: Seq<Option<i32>>, i: int, count: int)
    requires
        1 <= i,
        forall|j: int| 0 <= j < days.len() ==> (#[trigger] days[j]) is Some,
    ensures
        backward_run(days, i, count) is Ok,
    decreases days.len() - i,
{
    if i < days.len() && follows(days[i - 1], days[i]) {
        lemma_backward_run_known(days, i + 1, count + 1);
    }
}

proof fn lemma_leading_days(days: Seq<Option<i32>>, k: int, j: int)
    requires
        is_leading_run(days, k),
        days[0] is Some,
        0 <= j < k,
    ensures
        days[j] is Some,
        days[j]->0 == days[0]->0 - j,
    decreases j,
{
    if j > 0 {
        lemma_leading_days(days, k, j - 1);
        assert(follows(days[j - 1], days[j]));
    }
}

} // verus!
