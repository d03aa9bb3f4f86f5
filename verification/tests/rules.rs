use flow_engine::achievement::AchievementType;
use flow_engine::rules::{is_unlocked, newly_earned, rule_is_met, ruled_types, StatsSnapshot};

fn figures(seconds: i64, sessions: i64, longest: i64, streak: i64, tasks: i64) -> StatsSnapshot {
    StatsSnapshot {
        total_focus_seconds: seconds,
        total_sessions: sessions,
        max_session_seconds: longest,
        current_streak: streak,
        tasks_completed: tasks,
    }
}

#[test]
fn nothing_is_earned_by_a_new_user() {
    assert!(newly_earned(&figures(0, 0, 0, 0, 0), &Vec::new()).is_empty());
}

#[test]
fn one_long_session_earns_first_session_and_hour_master() {
    let earned = newly_earned(&figures(3700, 1, 3700, 1, 0), &Vec::new());
    assert_eq!(earned, vec![AchievementType::FirstSession, AchievementType::HourMaster]);
}

#[test]
fn thresholds_are_inclusive() {
    let below = figures(35_999, 0, 3_599, 6, 49);
    assert!(newly_earned(&below, &Vec::new()).is_empty());
    let at = figures(36_000, 1, 3_600, 7, 50);
    assert_eq!(
        newly_earned(&at, &Vec::new()),
        vec![
            AchievementType::FirstSession,
            AchievementType::HourMaster,
            AchievementType::StreakWeek,
            AchievementType::TotalHours10,
            AchievementType::TaskMaster,
        ]
    );
    assert!(!rule_is_met(AchievementType::StreakMonth, &figures(0, 0, 0, 29, 0)));
    assert!(rule_is_met(AchievementType::StreakMonth, &figures(0, 0, 0, 30, 0)));
    assert!(!rule_is_met(AchievementType::TotalHours50, &figures(179_999, 0, 0, 0, 0)));
    assert!(rule_is_met(AchievementType::TotalHours50, &figures(180_000, 0, 0, 0, 0)));
    assert!(!rule_is_met(AchievementType::TotalHours100, &figures(359_999, 0, 0, 0, 0)));
    assert!(rule_is_met(AchievementType::TotalHours100, &figures(360_000, 0, 0, 0, 0)));
}

#[test]
fn everything_with_a_rule_can_be_earned_at_once() {
    let all = figures(i64::MAX, i64::MAX, i64::MAX, i64::MAX, i64::MAX);
    assert_eq!(newly_earned(&all, &Vec::new()), ruled_types());
    assert_eq!(ruled_types().len(), 8);
}

#[test]
fn early_bird_and_night_owl_have_no_rule() {
    let all = figures(i64::MAX, i64::MAX, i64::MAX, i64::MAX, i64::MAX);
    assert!(!rule_is_met(AchievementType::EarlyBird, &all));
    assert!(!rule_is_met(AchievementType::NightOwl, &all));
    let earned = newly_earned(&all, &Vec::new());
    assert!(!earned.contains(&AchievementType::EarlyBird));
    assert!(!earned.contains(&AchievementType::NightOwl));
}

#[test]
fn unlocked_types_are_not_earned_again() {
    let stats = figures(40_000, 3, 3_700, 8, 0);
    let unlocked = vec![AchievementType::HourMaster, AchievementType::NightOwl];
    assert_eq!(
        newly_earned(&stats, &unlocked),
        vec![
            AchievementType::FirstSession,
            AchievementType::StreakWeek,
            AchievementType::TotalHours10,
        ]
    );
    assert!(is_unlocked(&unlocked, AchievementType::NightOwl));
    assert!(!is_unlocked(&unlocked, AchievementType::FirstSession));
}

#[test]
fn a_second_evaluation_earns_nothing() {
    let stats = figures(200_000, 12, 5_000, 31, 77);
    let mut unlocked = vec![AchievementType::EarlyBird];
    let first = newly_earned(&stats, &unlocked);
    assert_eq!(first.len(), 7);
    unlocked.extend(first);
    assert!(newly_earned(&stats, &unlocked).is_empty());
}
