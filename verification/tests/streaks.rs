use flow_engine::streak::{current_streak, leading_run, longest_run, longest_streak, read_days};

fn dates(items: &[&str]) -> Vec<String> {
    items.iter().map(|s| s.to_string()).collect()
}

#[test]
fn no_dates_no_streak() {
    assert_eq!(current_streak(&Vec::new(), "2024-03-07", "2024-03-06").ok(), Some(0));
    assert_eq!(longest_streak(&Vec::new()).ok(), Some(0));
}

#[test]
fn a_week_of_consecutive_days_ending_today() {
    let descending = dates(&[
        "2024-03-07",
        "2024-03-06",
        "2024-03-05",
        "2024-03-04",
        "2024-03-03",
        "2024-03-02",
        "2024-03-01",
    ]);
    let mut ascending = descending.clone();
    ascending.reverse();
    assert_eq!(current_streak(&descending, "2024-03-07", "2024-03-06").ok(), Some(7));
    assert_eq!(longest_streak(&ascending).ok(), Some(7));
}

#[test]
fn a_gap_ends_the_current_streak() {
    let descending = dates(&[
        "2024-03-07",
        "2024-03-06",
        "2024-03-05",
        "2024-03-03",
        "2024-03-02",
        "2024-03-01",
    ]);
    let mut ascending = descending.clone();
    ascending.reverse();
    assert_eq!(current_streak(&descending, "2024-03-07", "2024-03-06").ok(), Some(3));
    assert_eq!(longest_streak(&ascending).ok(), Some(3));
}

#[test]
fn streak_that_ended_yesterday_still_counts() {
    let descending = dates(&["2024-03-06", "2024-03-05"]);
    assert_eq!(current_streak(&descending, "2024-03-07", "2024-03-06").ok(), Some(2));
}

#[test]
fn streak_is_broken_when_the_last_day_is_older_than_yesterday() {
    let descending = dates(&["2024-03-05", "2024-03-04", "2024-03-03"]);
    assert_eq!(current_streak(&descending, "2024-03-07", "2024-03-06").ok(), Some(0));
    let mut ascending = descending.clone();
    ascending.reverse();
    assert_eq!(longest_streak(&ascending).ok(), Some(3));
}

#[test]
fn a_single_date() {
    let one = dates(&["2024-03-07"]);
    assert_eq!(current_streak(&one, "2024-03-07", "2024-03-06").ok(), Some(1));
    assert_eq!(longest_streak(&one).ok(), Some(1));
    assert_eq!(current_streak(&one, "2024-03-09", "2024-03-08").ok(), Some(0));
}

#[test]
fn streaks_cross_month_year_and_leap_day() {
    let descending = dates(&["2024-03-01", "2024-02-29", "2024-02-28"]);
    assert_eq!(current_streak(&descending, "2024-03-01", "2024-02-29").ok(), Some(3));
    let ascending = dates(&["2023-12-30", "2023-12-31", "2024-01-01", "2024-01-02"]);
    assert_eq!(longest_streak(&ascending).ok(), Some(4));
    let no_leap = dates(&["2023-02-28", "2023-03-01"]);
    assert_eq!(longest_streak(&no_leap).ok(), Some(2));
}

#[test]
fn longest_streak_takes_the_best_run() {
    let ascending = dates(&[
        "2024-01-01",
        "2024-01-02",
        "2024-01-10",
        "2024-01-11",
        "2024-01-12",
        "2024-01-13",
        "2024-01-20",
    ]);
    assert_eq!(longest_streak(&ascending).ok(), Some(4));
}

#[test]
fn longest_streak_is_at_least_the_current_streak() {
    let ascending = dates(&[
        "2024-02-01",
        "2024-02-02",
        "2024-02-03",
        "2024-02-04",
        "2024-03-05",
        "2024-03-06",
        "2024-03-07",
    ]);
    let mut descending = ascending.clone();
    descending.reverse();
    let current = current_streak(&descending, "2024-03-07", "2024-03-06").ok().unwrap();
    let longest = longest_streak(&ascending).ok().unwrap();
    assert_eq!(current, 3);
    assert_eq!(longest, 4);
    assert!(longest >= current);
}

#[test]
fn a_text_that_is_no_date_fails_the_scan_that_reaches_it() {
    let descending = dates(&["2024-03-07", "2024-03-06", "junk", "2024-03-04"]);
    let error = current_streak(&descending, "2024-03-07", "2024-03-06").unwrap_err();
    assert_eq!(error.index, 2);
    assert!(!error.reason.is_empty());

    let first_is_bad = dates(&["junk", "2024-03-06"]);
    let error = current_streak(&first_is_bad, "junk", "2024-03-06").unwrap_err();
    assert_eq!(error.index, 0);

    let ascending = dates(&["2024-03-04", "2024-03-06", "2024-02-31"]);
    let error = longest_streak(&ascending).unwrap_err();
    assert_eq!(error.index, 2);
}

#[test]
fn a_text_that_is_no_date_behind_a_gap_is_never_read() {
    let descending = dates(&["2024-03-07", "2024-03-05", "junk"]);
    assert_eq!(current_streak(&descending, "2024-03-07", "2024-03-06").ok(), Some(1));
    let not_anchored = dates(&["junk", "more junk"]);
    assert_eq!(current_streak(&not_anchored, "2024-03-07", "2024-03-06").ok(), Some(0));
    let alone = dates(&["junk"]);
    assert_eq!(longest_streak(&alone).ok(), Some(1));
}

#[test]
fn runs_of_days() {
    assert_eq!(leading_run(&vec![]), Ok(0));
    assert_eq!(leading_run(&vec![None]), Ok(1));
    assert_eq!(leading_run(&vec![Some(10), Some(9), Some(8), Some(6)]), Ok(3));
    assert_eq!(leading_run(&vec![Some(10), Some(8), None]), Ok(1));
    assert_eq!(leading_run(&vec![Some(10), Some(9), None, Some(7)]), Err(2));
    assert_eq!(leading_run(&vec![None, Some(9)]), Err(0));
    assert_eq!(leading_run(&vec![Some(i32::MIN + 1), Some(i32::MIN)]), Ok(2));
    assert_eq!(leading_run(&vec![Some(i32::MAX), Some(i32::MIN)]), Ok(1));

    assert_eq!(longest_run(&vec![]), Ok(0));
    assert_eq!(longest_run(&vec![None]), Ok(1));
    assert_eq!(longest_run(&vec![Some(1), Some(2), Some(4), Some(5), Some(6), Some(9)]), Ok(3));
    assert_eq!(longest_run(&vec![Some(1), Some(3), None]), Err(2));
    assert_eq!(longest_run(&vec![Some(3), Some(2), Some(1)]), Ok(1));
    assert_eq!(longest_run(&vec![Some(i32::MIN), Some(i32::MAX)]), Ok(1));
}

#[test]
fn days_of_dates() {
    let days = read_days(&dates(&["2024-03-01", "junk", "2024-02-29", "1970-01-01"]));
    assert_eq!(days, vec![Some(738_946), None, Some(738_945), Some(719_163)]);
    assert!(read_days(&Vec::new()).is_empty());
}
