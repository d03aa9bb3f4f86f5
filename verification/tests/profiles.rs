use flow_engine::achievement::AchievementType;
use flow_engine::calendar::Moment;
use flow_engine::clock::fresh_ids;
use flow_engine::profile::{EngineError, Profile, StatsError};
use flow_engine::achievement::Achievement;
use flow_engine::session::{CreateFocusSessionRequest, DailyStats, FocusSession, UserStats};
use flow_engine::settings::SettingEntry;
use flow_engine::task::{CreateTaskRequest, Task, TaskCategory, UpdateTaskRequest};
use flow_engine::user::{CreateUserRequest, User};

fn fresh_id() -> String {
    fresh_ids(1).remove(0)
}

fn user(id: &str) -> User {
    User::from_request(
        id.to_string(),
        CreateUserRequest { name: "Ada".to_string(), email: None },
        "2024-01-01".to_string(),
        "2024-01-01 00:00:00".to_string(),
    )
}

fn moment(today: &str, yesterday: &str) -> Moment {
    Moment {
        timestamp: format!("{} 12:00:00", today),
        today: today.to_string(),
        yesterday: yesterday.to_string(),
        year_ago: "2023-03-08".to_string(),
    }
}

fn request(user: &str, start: &str, end: &str, seconds: i64) -> CreateFocusSessionRequest {
    CreateFocusSessionRequest {
        user_id: user.to_string(),
        duration_seconds: seconds,
        started_at: start.to_string(),
        ended_at: end.to_string(),
        category: None,
        notes: None,
    }
}

fn record_on(profile: &mut Profile, date: &str, seconds: i64) {
    let start = format!("{} 08:00:00", date);
    let end = format!("{} 09:00:00", date);
    profile
        .record_session(fresh_id(), request("u1", &start, &end, seconds), &moment(date, date))
        .unwrap();
}

fn new_task(user: &str, title: &str) -> CreateTaskRequest {
    CreateTaskRequest {
        user_id: user.to_string(),
        title: title.to_string(),
        category: TaskCategory::ToDo,
        date: "2024-01-05".to_string(),
        start_time: "09:00".to_string(),
        end_time: "10:00".to_string(),
    }
}

fn kinds(profile: &Profile) -> Vec<AchievementType> {
    profile.achievements().iter().map(|a| a.achievement_type).collect()
}

#[test]
fn a_new_user_has_all_zero_stats() {
    let profile = Profile::new(user("u1"));
    let stats = profile.compute_stats("2024-01-01", "2023-12-31").ok().unwrap();
    assert_eq!(
        stats,
        UserStats {
            total_focus_time: 0,
            total_sessions: 0,
            current_streak: 0,
            longest_streak: 0,
            tasks_completed: 0,
        }
    );
    assert!(profile.pending_achievements("2024-01-01", "2023-12-31").is_empty());
}

#[test]
fn one_long_session_unlocks_first_session_and_hour_master() {
    let mut profile = Profile::new(user("u1"));
    let now = moment("2024-01-01", "2023-12-31");
    let session = profile
        .record_session(
            "s1".to_string(),
            request("u1", "2024-01-01 05:00:00", "2024-01-01 06:01:40", 3700),
            &now,
        )
        .unwrap();
    assert_eq!(session.id, "s1");
    assert_eq!(session.duration_seconds, 3700);
    assert_eq!(session.created_at, "2024-01-01 12:00:00");

    let stats = profile.compute_stats("2024-01-01", "2023-12-31").ok().unwrap();
    assert_eq!(stats.total_sessions, 1);
    assert_eq!(stats.total_focus_time, 3700);
    assert_eq!(stats.current_streak, 1);
    assert_eq!(stats.longest_streak, 1);
    assert_eq!(stats.tasks_completed, 0);

    let unlocked = profile.evaluate_achievements(&now);
    let types: Vec<AchievementType> = unlocked.iter().map(|a| a.achievement_type).collect();
    assert_eq!(types, vec![AchievementType::FirstSession, AchievementType::HourMaster]);
    for record in &unlocked {
        assert_eq!(record.user_id, "u1");
        assert_eq!(record.unlocked_at, "2024-01-01 12:00:00");
        assert_eq!(record.metadata, None);
    }
    assert_ne!(unlocked[0].id, unlocked[1].id);
    assert_eq!(kinds(&profile), types);
}

#[test]
fn a_second_evaluation_unlocks_nothing() {
    let mut profile = Profile::new(user("u1"));
    let now = moment("2024-01-01", "2023-12-31");
    record_on(&mut profile, "2024-01-01", 3700);
    assert_eq!(profile.evaluate_achievements(&now).len(), 2);
    assert!(profile.evaluate_achievements(&now).is_empty());
    assert_eq!(profile.achievements().len(), 2);
}

#[test]
fn a_week_of_days_is_a_streak_of_seven() {
    let mut profile = Profile::new(user("u1"));
    for day in ["03", "01", "07", "02", "06", "04", "05"] {
        record_on(&mut profile, &format!("2024-03-{}", day), 1500);
    }
    let stats = profile.compute_stats("2024-03-07", "2024-03-06").ok().unwrap();
    assert_eq!(stats.current_streak, 7);
    assert_eq!(stats.longest_streak, 7);
    assert_eq!(stats.total_sessions, 7);
    assert_eq!(stats.total_focus_time, 10_500);
    let unlocked = profile.evaluate_achievements(&moment("2024-03-07", "2024-03-06"));
    let types: Vec<AchievementType> = unlocked.iter().map(|a| a.achievement_type).collect();
    assert_eq!(types, vec![AchievementType::FirstSession, AchievementType::StreakWeek]);
}

#[test]
fn a_missing_day_breaks_the_run() {
    let mut profile = Profile::new(user("u1"));
    for day in ["01", "02", "03", "05", "06", "07"] {
        record_on(&mut profile, &format!("2024-03-{}", day), 1500);
    }
    let stats = profile.compute_stats("2024-03-07", "2024-03-06").ok().unwrap();
    assert_eq!(stats.current_streak, 3);
    assert_eq!(stats.longest_streak, 3);
    let types = profile.pending_achievements("2024-03-07", "2024-03-06");
    assert_eq!(types, vec![AchievementType::FirstSession]);

    let later = profile.compute_stats("2024-03-09", "2024-03-08").ok().unwrap();
    assert_eq!(later.current_streak, 0);
    assert_eq!(later.longest_streak, 3);
}

#[test]
fn days_without_focus_time_do_not_count_for_streaks() {
    let mut profile = Profile::new(user("u1"));
    record_on(&mut profile, "2024-03-05", 60);
    record_on(&mut profile, "2024-03-06", 0);
    record_on(&mut profile, "2024-03-07", 60);
    let stats = profile.compute_stats("2024-03-07", "2024-03-06").ok().unwrap();
    assert_eq!(stats.current_streak, 1);
    assert_eq!(stats.longest_streak, 1);
    assert_eq!(stats.total_sessions, 3);
}

#[test]
fn rollups_add_up_to_the_recorded_sessions() {
    let mut profile = Profile::new(user("u1"));
    let mut sum = 0;
    for (date, seconds) in [
        ("2024-02-10", 1500),
        ("2024-02-09", 600),
        ("2024-02-10", 2400),
        ("2024-02-11", 1),
        ("2024-02-09", 0),
    ] {
        record_on(&mut profile, date, seconds);
        sum += seconds;
        let rollups: i64 = profile.daily_stats().iter().map(|r| r.total_focus_seconds).sum();
        let sessions: i64 = profile.sessions().iter().map(|s| s.duration_seconds).sum();
        assert_eq!(rollups, sum);
        assert_eq!(sessions, sum);
    }
    assert_eq!(profile.daily_stats().len(), 3);
    assert_eq!(profile.sessions().len(), 5);
}

#[test]
fn a_session_is_recorded_as_a_whole_or_not_at_all() {
    let mut profile = Profile::new(user("u1"));
    let now = moment("2024-01-01", "2023-12-31");
    record_on(&mut profile, "2024-01-01", i64::MAX - 10);
    let cases = [
        (request("u2", "2024-01-01 05:00:00", "x", 10), EngineError::WrongUser),
        (request("u1", "2024-01-01 05:00:00", "x", -5), EngineError::NegativeDuration),
        (request("u1", "2024", "x", 10), EngineError::ShortTimestamp),
        (request("u1", "2024-01-01 05:00:00", "x", 11), EngineError::Overflow),
    ];
    for (bad, expected) in cases {
        assert_eq!(profile.record_session(fresh_id(), bad, &now).unwrap_err(), expected);
        assert_eq!(profile.sessions().len(), 1);
        assert_eq!(profile.daily_stats().len(), 1);
        assert_eq!(profile.daily_stats()[0].total_focus_seconds, i64::MAX - 10);
        assert_eq!(profile.daily_stats()[0].session_count, 1);
    }
    assert!(profile.record_session(fresh_id(), request("u1", "2024-01-01 05:00:00", "x", 10), &now).is_ok());
    assert_eq!(profile.daily_stats()[0].total_focus_seconds, i64::MAX);
    assert!(matches!(
        profile.record_session(fresh_id(), request("u1", "2024-01-02 05:00:00", "x", 1), &now),
        Ok(_)
    ));
    assert!(matches!(profile.compute_stats("2024-01-02", "2024-01-01"), Err(StatsError::Overflow)));
    let figures = profile.figures("2024-01-02", "2024-01-01");
    assert_eq!(figures.total_focus_seconds, 0);
    assert_eq!(figures.total_sessions, 0);
    assert_eq!(figures.max_session_seconds, i64::MAX - 10);
    assert_eq!(figures.current_streak, 2);
}

#[test]
fn an_achievement_is_unlocked_once() {
    let mut profile = Profile::new(user("u1"));
    let now = moment("2024-01-01", "2023-12-31");
    let record = profile.unlock_achievement("a1".to_string(), AchievementType::EarlyBird, &now).unwrap();
    assert_eq!(record.id, "a1");
    assert_eq!(record.user_id, "u1");
    assert_eq!(record.achievement_type, AchievementType::EarlyBird);
    assert_eq!(record.unlocked_at, "2024-01-01 12:00:00");
    assert_eq!(
        profile.unlock_achievement("a2".to_string(), AchievementType::EarlyBird, &now).unwrap_err(),
        EngineError::AlreadyUnlocked
    );
    assert_eq!(kinds(&profile), vec![AchievementType::EarlyBird]);
    assert!(profile.unlock_achievement("a3".to_string(), AchievementType::NightOwl, &now).is_ok());
    assert_eq!(kinds(&profile), vec![AchievementType::EarlyBird, AchievementType::NightOwl]);
}

#[test]
fn fifty_completed_tasks_make_a_task_master() {
    let mut profile = Profile::new(user("u1"));
    let now = moment("2024-01-01", "2023-12-31");
    let done = UpdateTaskRequest {
        title: None,
        category: None,
        date: None,
        start_time: None,
        end_time: None,
        completed: Some(true),
    };
    for i in 0..50 {
        let id = format!("t{}", i);
        profile.add_task(id.clone(), new_task("u1", "x"), &now).unwrap();
        if i == 49 {
            assert_eq!(profile.compute_stats("2024-01-01", "2023-12-31").ok().unwrap().tasks_completed, 49);
            assert!(profile.pending_achievements("2024-01-01", "2023-12-31").is_empty());
        }
        profile.update_task(&id, &done).unwrap();
    }
    assert_eq!(profile.compute_stats("2024-01-01", "2023-12-31").ok().unwrap().tasks_completed, 50);
    assert_eq!(
        profile.pending_achievements("2024-01-01", "2023-12-31"),
        vec![AchievementType::TaskMaster]
    );
}

#[test]
fn tasks_are_updated_toggled_and_deleted() {
    let mut profile = Profile::new(user("u1"));
    let now = moment("2024-01-01", "2023-12-31");
    let task = profile.add_task("t1".to_string(), new_task("u1", "Write"), &now).unwrap();
    assert!(!task.completed);
    assert_eq!(task.created_at, "2024-01-01 12:00:00");
    profile.add_task("t2".to_string(), new_task("u1", "Read"), &now).unwrap();
    assert_eq!(
        profile.add_task("t3".to_string(), new_task("u2", "Other"), &now).unwrap_err(),
        EngineError::WrongUser
    );

    let nothing = UpdateTaskRequest {
        title: None,
        category: None,
        date: None,
        start_time: None,
        end_time: None,
        completed: None,
    };
    let same = profile.update_task("t1", &nothing).unwrap();
    assert_eq!(same.title, "Write");
    assert_eq!(same.category, TaskCategory::ToDo);
    assert!(!same.completed);

    let change = UpdateTaskRequest {
        title: Some("Revise".to_string()),
        category: Some(TaskCategory::Reminder),
        date: None,
        start_time: None,
        end_time: Some("11:00".to_string()),
        completed: None,
    };
    let changed = profile.update_task("t1", &change).unwrap();
    assert_eq!(changed.title, "Revise");
    assert_eq!(changed.category, TaskCategory::Reminder);
    assert_eq!(changed.start_time, "09:00");
    assert_eq!(changed.end_time, "11:00");
    assert_eq!(profile.tasks()[0].title, "Revise");
    assert_eq!(profile.tasks()[1].title, "Read");
    assert_eq!(profile.update_task("nope", &change).unwrap_err(), EngineError::NotFound);

    assert!(profile.toggle_task_completion("t2").unwrap().completed);
    assert!(!profile.toggle_task_completion("t2").unwrap().completed);
    assert_eq!(profile.toggle_task_completion("nope").unwrap_err(), EngineError::NotFound);

    profile.delete_task("t1");
    assert_eq!(profile.tasks().len(), 1);
    assert_eq!(profile.tasks()[0].id, "t2");
    profile.delete_task("t1");
    assert_eq!(profile.tasks().len(), 1);
}

#[test]
fn settings_of_a_profile() {
    let mut profile = Profile::new(user("u1"));
    assert_eq!(profile.get_setting("theme"), None);
    profile.set_setting("theme", "dark");
    profile.set_setting("theme", "light");
    profile.set_setting("goal", "4");
    assert_eq!(profile.get_setting("theme").as_deref(), Some("light"));
    assert_eq!(profile.settings().len(), 2);
    profile.delete_setting("theme");
    assert_eq!(profile.get_setting("theme"), None);
    assert_eq!(profile.get_setting("goal").as_deref(), Some("4"));
}

#[test]
fn heatmap_and_ranges_of_a_profile() {
    let mut profile = Profile::new(user("u1"));
    record_on(&mut profile, "2023-03-07", 6000);
    record_on(&mut profile, "2024-03-06", 119);
    record_on(&mut profile, "2024-03-07", 3700);
    let now = Moment::at(1_709_769_600).unwrap();
    let points: Vec<(String, i64)> =
        profile.compute_heatmap(&now).iter().map(|p| (p.date.clone(), p.value)).collect();
    assert_eq!(profile.heatmap_since("2024-03-07").len(), 1);
    assert_eq!(points, vec![("2024-03-06".to_string(), 1), ("2024-03-07".to_string(), 61)]);
    let range = profile.daily_stats_between("2023-01-01", "2024-03-06");
    assert_eq!(range.len(), 2);
    assert_eq!(range[1].total_focus_seconds, 119);
}

#[test]
fn importing_a_snapshot_twice_inserts_nothing_the_second_time() {
    let mut source = Profile::new(user("u1"));
    let now = moment("2024-03-07", "2024-03-06");
    record_on(&mut source, "2024-03-06", 1500);
    record_on(&mut source, "2024-03-07", 3700);
    source.add_task("t1".to_string(), new_task("u1", "Write"), &now).unwrap();
    source.evaluate_achievements(&now);
    source.set_setting("theme", "dark");
    let snapshot = source.export(&now);
    assert_eq!(snapshot.version, "1.0");
    assert_eq!(snapshot.exported_at, "2024-03-07 12:00:00");
    assert_eq!(snapshot.focus_sessions.len(), 2);

    let later = moment("2024-04-01", "2024-03-31");
    let (mut target, first) = Profile::import_snapshot(None, &snapshot, &later).ok().unwrap();
    assert!(first.success);
    assert_eq!(first.sessions_imported, 2);
    assert_eq!(first.tasks_imported, 1);
    assert_eq!(first.achievements_imported, 2);
    assert_eq!(first.settings_imported, 1);
    assert_eq!(first.message, "Imported 2 sessions, 1 tasks, 2 achievements, 1 settings");
    assert_eq!(target.user().id, "u1");
    assert_eq!(target.user().name, "Ada");
    assert_eq!(target.user().join_date, "2024-01-01");
    assert_eq!(target.user().created_at, "2024-04-01 12:00:00");
    assert_eq!(target.user().updated_at, "2024-04-01 12:00:00");

    target.set_setting("theme", "light");
    let second = target.import(&snapshot).unwrap();
    assert_eq!(second.sessions_imported, 0);
    assert_eq!(second.tasks_imported, 0);
    assert_eq!(second.achievements_imported, 0);
    assert_eq!(second.settings_imported, 1);
    assert_eq!(second.message, "Imported 0 sessions, 0 tasks, 0 achievements, 1 settings");
    assert_eq!(target.sessions().len(), 2);
    assert_eq!(target.tasks().len(), 1);
    assert_eq!(target.achievements().len(), 2);
    assert_eq!(target.get_setting("theme").as_deref(), Some("dark"));
    assert_eq!(target.settings().len(), 1);
}

#[test]
fn import_never_overwrites_an_existing_profile() {
    let mut mine = Profile::new(user("u1"));
    let now = moment("2024-03-07", "2024-03-06");
    mine.record_session("s1".to_string(), request("u1", "2024-03-07 08:00:00", "e", 100), &now).unwrap();
    mine.set_setting("lang", "en");

    let mut theirs = Profile::new(User::from_row(
        "u1".to_string(),
        "Impostor".to_string(),
        None,
        None,
        "1999-01-01".to_string(),
        1,
        "x".to_string(),
        "y".to_string(),
    ));
    theirs.record_session("s1".to_string(), request("u1", "2024-03-07 08:00:00", "e", 999), &now).unwrap();
    theirs.record_session("s2".to_string(), request("u1", "2024-03-07 09:00:00", "e", 50), &now).unwrap();
    let mut snapshot = theirs.export(&now);
    snapshot.settings.push(SettingEntry { key: "lang".to_string(), value: "fr".to_string() });

    let (merged, account) = Profile::import_snapshot(Some(mine), &snapshot, &now).ok().unwrap();
    assert_eq!(account.sessions_imported, 1);
    assert_eq!(merged.user().name, "Ada");
    assert!(!merged.user().is_premium);
    assert_eq!(merged.sessions().len(), 2);
    assert_eq!(merged.sessions()[0].duration_seconds, 100);
    assert_eq!(merged.sessions()[1].id, "s2");
    assert_eq!(merged.get_setting("lang").as_deref(), Some("fr"));
    assert_eq!(merged.daily_stats().len(), 1);
    assert_eq!(merged.daily_stats()[0].total_focus_seconds, 150);
    assert_eq!(merged.daily_stats()[0].session_count, 2);
}

#[test]
fn a_snapshot_of_another_user_is_refused() {
    let mut mine = Profile::new(user("u1"));
    let other = Profile::new(user("u2"));
    let now = moment("2024-03-07", "2024-03-06");
    let snapshot = other.export(&now);
    assert_eq!(mine.import(&snapshot).unwrap_err(), EngineError::WrongUser);
    assert!(matches!(
        Profile::import_snapshot(Some(mine), &snapshot, &now),
        Err(EngineError::WrongUser)
    ));
}

fn rollup(date: &str, seconds: i64) -> DailyStats {
    DailyStats { date: date.to_string(), total_focus_seconds: seconds, session_count: 1 }
}

fn stored_session(id: &str, owner: &str) -> FocusSession {
    FocusSession {
        id: id.to_string(),
        user_id: owner.to_string(),
        duration_seconds: 60,
        started_at: "2024-03-07 08:00:00".to_string(),
        ended_at: "2024-03-07 08:01:00".to_string(),
        category: None,
        notes: None,
        created_at: "2024-03-07 08:01:00".to_string(),
    }
}

fn stored_unlock(id: &str, owner: &str, kind: AchievementType) -> Achievement {
    Achievement::from_row(id.to_string(), owner.to_string(), kind.as_str(), "t".to_string(), None)
}

fn stored_task(id: &str, owner: &str) -> Task {
    Task::from_row(
        id.to_string(),
        owner.to_string(),
        "x".to_string(),
        "Event",
        "2024-03-07".to_string(),
        "09:00".to_string(),
        "10:00".to_string(),
        1,
        "c".to_string(),
    )
}

fn setting(key: &str) -> SettingEntry {
    SettingEntry { key: key.to_string(), value: "v".to_string() }
}

#[test]
fn a_profile_is_assembled_from_rows_that_are_in_order() {
    let profile = Profile::assemble(
        user("u1"),
        vec![stored_session("s1", "u1"), stored_session("s2", "u1")],
        vec![stored_task("t1", "u1")],
        vec![
            stored_unlock("a1", "u1", AchievementType::FirstSession),
            stored_unlock("a2", "u1", AchievementType::NightOwl),
        ],
        vec![setting("a"), setting("b")],
        vec![rollup("2024-03-05", 10), rollup("2024-03-06", 0), rollup("2024-03-07", 50)],
    )
    .unwrap();
    let stats = profile.compute_stats("2024-03-07", "2024-03-06").ok().unwrap();
    assert_eq!(stats.total_sessions, 2);
    assert_eq!(stats.total_focus_time, 120);
    assert_eq!(stats.tasks_completed, 1);
    assert_eq!(stats.current_streak, 1);
    assert_eq!(stats.longest_streak, 1);
    assert!(Profile::assemble(user("u1"), vec![], vec![], vec![], vec![], vec![]).is_some());
}

#[test]
fn rows_that_are_out_of_order_make_no_profile() {
    assert!(Profile::assemble(user("u1"), vec![stored_session("s1", "u2")], vec![], vec![], vec![], vec![])
        .is_none());
    assert!(Profile::assemble(user("u1"), vec![], vec![stored_task("t1", "u2")], vec![], vec![], vec![])
        .is_none());
    assert!(Profile::assemble(
        user("u1"),
        vec![stored_session("s1", "u1"), stored_session("s1", "u1")],
        vec![],
        vec![],
        vec![],
        vec![]
    )
    .is_none());
    assert!(Profile::assemble(
        user("u1"),
        vec![],
        vec![stored_task("t1", "u1"), stored_task("t2", "u1"), stored_task("t1", "u1")],
        vec![],
        vec![],
        vec![]
    )
    .is_none());
    assert!(Profile::assemble(
        user("u1"),
        vec![],
        vec![],
        vec![
            stored_unlock("a1", "u1", AchievementType::FirstSession),
            stored_unlock("a1", "u1", AchievementType::HourMaster),
        ],
        vec![],
        vec![]
    )
    .is_none());
    assert!(Profile::assemble(
        user("u1"),
        vec![],
        vec![],
        vec![stored_unlock("a1", "u2", AchievementType::FirstSession)],
        vec![],
        vec![]
    )
    .is_none());
    assert!(Profile::assemble(
        user("u1"),
        vec![],
        vec![],
        vec![
            stored_unlock("a1", "u1", AchievementType::FirstSession),
            stored_unlock("a2", "u1", AchievementType::HourMaster),
            stored_unlock("a3", "u1", AchievementType::FirstSession),
        ],
        vec![],
        vec![]
    )
    .is_none());
    assert!(Profile::assemble(
        user("u1"),
        vec![],
        vec![],
        vec![],
        vec![setting("a"), setting("b"), setting("a")],
        vec![]
    )
    .is_none());
    assert!(Profile::assemble(
        user("u1"),
        vec![],
        vec![],
        vec![],
        vec![],
        vec![rollup("2024-03-06", 1), rollup("2024-03-05", 1)]
    )
    .is_none());
    assert!(Profile::assemble(
        user("u1"),
        vec![],
        vec![],
        vec![],
        vec![],
        vec![rollup("2024-03-05", 1), rollup("2024-03-07", 1), rollup("2024-03-07", 1)]
    )
    .is_none());
}

#[test]
fn a_stored_date_that_is_no_date_fails_the_summary() {
    let profile = Profile::assemble(
        user("u1"),
        vec![],
        vec![],
        vec![],
        vec![],
        vec![rollup("2024-03-06", 1), rollup("2024-03-07", 1), rollup("2024-03-xx", 1)],
    )
    .unwrap();
    match profile.compute_stats("2024-03-xx", "2024-03-07") {
        Err(StatsError::InvalidDate(e)) => assert_eq!(e.index, 0),
        _ => panic!("the summary should fail"),
    }
    match profile.compute_stats("2024-03-08", "2024-03-07") {
        Err(StatsError::InvalidDate(e)) => assert_eq!(e.index, 2),
        _ => panic!("the summary should fail"),
    }
    assert_eq!(profile.figures("2024-03-xx", "2024-03-07").current_streak, 0);
    assert!(profile.pending_achievements("2024-03-xx", "2024-03-07").is_empty());
}

fn rollups_and_sessions(profile: &Profile) -> (i64, i64) {
    (
        profile.daily_stats().iter().map(|r| r.total_focus_seconds).sum(),
        profile.sessions().iter().map(|s| s.duration_seconds).sum(),
    )
}

#[test]
fn an_identifier_that_is_taken_is_refused() {
    let mut profile = Profile::new(user("u1"));
    let now = moment("2024-03-07", "2024-03-06");
    profile.record_session("s1".to_string(), request("u1", "2024-03-07 08:00:00", "e", 100), &now).unwrap();
    assert_eq!(
        profile
            .record_session("s1".to_string(), request("u1", "2024-03-08 08:00:00", "e", 50), &now)
            .unwrap_err(),
        EngineError::DuplicateId
    );
    assert_eq!(profile.sessions().len(), 1);
    assert_eq!(profile.daily_stats().len(), 1);
    assert_eq!(profile.daily_stats()[0].total_focus_seconds, 100);

    profile.add_task("t1".to_string(), new_task("u1", "a"), &now).unwrap();
    assert_eq!(
        profile.add_task("t1".to_string(), new_task("u1", "b"), &now).unwrap_err(),
        EngineError::DuplicateId
    );
    assert_eq!(profile.tasks().len(), 1);
    assert_eq!(profile.tasks()[0].title, "a");
    assert!(profile.add_task("s1".to_string(), new_task("u1", "c"), &now).is_ok());

    profile.unlock_achievement("a1".to_string(), AchievementType::EarlyBird, &now).unwrap();
    assert_eq!(
        profile.unlock_achievement("a1".to_string(), AchievementType::NightOwl, &now).unwrap_err(),
        EngineError::DuplicateId
    );
    assert_eq!(
        profile.unlock_achievement("a1".to_string(), AchievementType::EarlyBird, &now).unwrap_err(),
        EngineError::AlreadyUnlocked
    );
    assert_eq!(kinds(&profile), vec![AchievementType::EarlyBird]);
}

#[test]
fn evaluation_gives_every_record_an_identifier_of_its_own() {
    let mut profile = Profile::new(user("u1"));
    let now = moment("2024-03-07", "2024-03-06");
    for day in ["01", "02", "03", "04", "05", "06", "07"] {
        record_on(&mut profile, &format!("2024-03-{}", day), 40_000);
    }
    profile.unlock_achievement("a1".to_string(), AchievementType::NightOwl, &now).unwrap();
    let unlocked = profile.evaluate_achievements(&now);
    assert_eq!(unlocked.len(), 5);
    let ids: Vec<&str> = profile.achievements().iter().map(|a| a.id.as_str()).collect();
    for i in 0..ids.len() {
        for j in 0..i {
            assert_ne!(ids[i], ids[j]);
        }
    }
}

#[test]
fn import_books_the_sessions_it_inserts() {
    let mut source = Profile::new(user("u1"));
    let now = moment("2024-03-07", "2024-03-06");
    source.record_session("s1".to_string(), request("u1", "2024-03-05 08:00:00", "e", 1500), &now).unwrap();
    source.record_session("s2".to_string(), request("u1", "2024-03-06 08:00:00", "e", 600), &now).unwrap();
    source.record_session("s3".to_string(), request("u1", "2024-03-06 09:00:00", "e", 60), &now).unwrap();
    let snapshot = source.export(&now);

    let mut target = Profile::new(user("u1"));
    target.record_session("s2".to_string(), request("u1", "2024-03-06 08:00:00", "e", 600), &now).unwrap();
    target.record_session("s9".to_string(), request("u1", "2024-03-07 08:00:00", "e", 10), &now).unwrap();
    assert_eq!(rollups_and_sessions(&target), (610, 610));

    let account = target.import(&snapshot).unwrap();
    assert_eq!(account.sessions_imported, 2);
    assert_eq!(rollups_and_sessions(&target), (2170, 2170));
    let rollups: Vec<(String, i64, i64)> = target
        .daily_stats()
        .iter()
        .map(|r| (r.date.clone(), r.total_focus_seconds, r.session_count))
        .collect();
    assert_eq!(
        rollups,
        vec![
            ("2024-03-05".to_string(), 1500, 1),
            ("2024-03-06".to_string(), 660, 2),
            ("2024-03-07".to_string(), 10, 1),
        ]
    );
    let stats = target.compute_stats("2024-03-07", "2024-03-06").ok().unwrap();
    assert_eq!(stats.total_focus_time, 2170);
    assert_eq!(stats.current_streak, 3);

    let again = target.import(&snapshot).unwrap();
    assert_eq!(again.sessions_imported, 0);
    assert_eq!(rollups_and_sessions(&target), (2170, 2170));
    assert_eq!(target.daily_stats().len(), 3);
}

#[test]
fn import_of_a_session_that_cannot_be_booked_changes_nothing() {
    let now = moment("2024-03-07", "2024-03-06");
    let base = Profile::new(user("u1")).export(&now);
    let cases = [
        (stored_session_with("n1", "2024-03-07 08:00:00", -1), EngineError::NegativeDuration),
        (stored_session_with("n2", "2024-03", 10), EngineError::ShortTimestamp),
        (stored_session_with("n3", "2024-03-07 09:00:00", i64::MAX), EngineError::Overflow),
    ];
    for (bad, expected) in cases {
        let mut target = Profile::new(user("u1"));
        target.record_session("s1".to_string(), request("u1", "2024-03-07 08:00:00", "e", 5), &now).unwrap();
        target.set_setting("theme", "dark");
        let mut snapshot = base.clone();
        snapshot.focus_sessions.push(stored_session("ok", "u1"));
        snapshot.focus_sessions.push(bad);
        snapshot.tasks.push(stored_task("t1", "u1"));
        snapshot.settings.push(setting("theme"));
        assert_eq!(target.import(&snapshot).unwrap_err(), expected);
        assert_eq!(target.sessions().len(), 1);
        assert_eq!(target.tasks().len(), 0);
        assert_eq!(target.daily_stats().len(), 1);
        assert_eq!(target.daily_stats()[0].total_focus_seconds, 5);
        assert_eq!(target.get_setting("theme").as_deref(), Some("dark"));
    }
    let mut target = Profile::new(user("u1"));
    target.record_session("n1".to_string(), request("u1", "2024-03-07 08:00:00", "e", 5), &now).unwrap();
    let mut snapshot = base.clone();
    snapshot.focus_sessions.push(stored_session_with("n1", "x", -1));
    assert_eq!(target.import(&snapshot).unwrap().sessions_imported, 0);
}

fn stored_session_with(id: &str, started_at: &str, seconds: i64) -> FocusSession {
    FocusSession {
        id: id.to_string(),
        user_id: "u1".to_string(),
        duration_seconds: seconds,
        started_at: started_at.to_string(),
        ended_at: "e".to_string(),
        category: None,
        notes: None,
        created_at: "c".to_string(),
    }
}

fn task_at(user: &str, title: &str, date: &str, start: &str) -> CreateTaskRequest {
    CreateTaskRequest {
        user_id: user.to_string(),
        title: title.to_string(),
        category: TaskCategory::Event,
        date: date.to_string(),
        start_time: start.to_string(),
        end_time: "23:00".to_string(),
    }
}

#[test]
fn export_hands_out_sessions_and_tasks_in_their_order() {
    let mut profile = Profile::new(user("u1"));
    let now = moment("2024-03-07", "2024-03-06");
    profile.record_session("late".to_string(), request("u1", "2024-02-01 09:00:00", "e", 10), &now).unwrap();
    profile.record_session("early".to_string(), request("u1", "2024-01-01 09:00:00", "e", 20), &now).unwrap();
    profile.record_session("noon".to_string(), request("u1", "2024-01-01 12:00:00", "e", 30), &now).unwrap();
    profile.record_session("twin".to_string(), request("u1", "2024-02-01 09:00:00", "e", 40), &now).unwrap();
    profile.add_task("t1".to_string(), task_at("u1", "c", "2024-05-02", "08:00"), &now).unwrap();
    profile.add_task("t2".to_string(), task_at("u1", "b", "2024-05-01", "14:00"), &now).unwrap();
    profile.add_task("t3".to_string(), task_at("u1", "a", "2024-05-01", "09:30"), &now).unwrap();
    profile.add_task("t4".to_string(), task_at("u1", "d", "2024-04-30", "23:59"), &now).unwrap();

    let snapshot = profile.export(&now);
    let starts: Vec<&str> = snapshot.focus_sessions.iter().map(|s| s.started_at.as_str()).collect();
    assert_eq!(
        starts,
        vec!["2024-01-01 09:00:00", "2024-01-01 12:00:00", "2024-02-01 09:00:00", "2024-02-01 09:00:00"]
    );
    assert_eq!(snapshot.focus_sessions[0].id, "early");
    assert_eq!(snapshot.focus_sessions[1].id, "noon");
    let mut twins: Vec<&str> = snapshot.focus_sessions[2..].iter().map(|s| s.id.as_str()).collect();
    twins.sort();
    assert_eq!(twins, vec!["late", "twin"]);
    let total: i64 = snapshot.focus_sessions.iter().map(|s| s.duration_seconds).sum();
    assert_eq!(total, 100);

    let ids: Vec<&str> = snapshot.tasks.iter().map(|t| t.id.as_str()).collect();
    assert_eq!(ids, vec!["t4", "t3", "t2", "t1"]);
    assert_eq!(snapshot.tasks[1].title, "a");

    let stored: Vec<&str> = profile.sessions().iter().map(|s| s.id.as_str()).collect();
    assert_eq!(stored, vec!["late", "early", "noon", "twin"]);
    assert_eq!(snapshot.version, "1.0");
    assert_eq!(snapshot.exported_at, "2024-03-07 12:00:00");
    assert_eq!(snapshot.user.id, "u1");
}
