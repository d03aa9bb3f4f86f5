use flow_engine::achievement::{achievement_overview, find_unlock_time, Achievement, AchievementType};
use flow_engine::aggregate::LedgerError;
use flow_engine::profile::EngineError;
use flow_engine::session::{session_limit, CreateFocusSessionRequest, FocusSession, DEFAULT_SESSION_LIMIT};
use flow_engine::task::{Task, TaskCategory};
use flow_engine::user::{clear_pointer_to, CreateUserRequest, User};

#[test]
fn task_category_tokens_round_trip() {
    for category in [TaskCategory::ToDo, TaskCategory::Event, TaskCategory::Reminder] {
        assert_eq!(TaskCategory::from_str(category.as_str()), Some(category));
    }
    assert_eq!(TaskCategory::ToDo.as_str(), "To Do");
    assert_eq!(TaskCategory::Event.as_str(), "Event");
    assert_eq!(TaskCategory::Reminder.as_str(), "Reminder");
}

#[test]
fn task_category_rejects_unknown_tokens() {
    assert_eq!(TaskCategory::from_str("to do"), None);
    assert_eq!(TaskCategory::from_str("ToDo"), None);
    assert_eq!(TaskCategory::from_str(""), None);
    assert_eq!(TaskCategory::from_str("Event "), None);
}

#[test]
fn stored_task_category_falls_back_to_todo() {
    assert_eq!(TaskCategory::from_stored("Reminder"), TaskCategory::Reminder);
    assert_eq!(TaskCategory::from_stored("Meeting"), TaskCategory::ToDo);
}

#[test]
fn achievement_tokens_round_trip() {
    for kind in AchievementType::all() {
        assert_eq!(AchievementType::from_str(kind.as_str()), Some(kind));
    }
    assert_eq!(AchievementType::from_str("unknown"), None);
    assert_eq!(AchievementType::from_str("First_Session"), None);
}

#[test]
fn achievement_catalog_has_ten_types_in_order() {
    let all = AchievementType::all();
    let tokens: Vec<&str> = all.iter().map(|k| k.as_str()).collect();
    assert_eq!(
        tokens,
        vec![
            "first_session",
            "hour_master",
            "streak_week",
            "streak_month",
            "total_hours_10",
            "total_hours_50",
            "total_hours_100",
            "early_bird",
            "night_owl",
            "task_master",
        ]
    );
}

#[test]
fn achievement_texts() {
    assert_eq!(AchievementType::FirstSession.display_name(), "First Focus");
    assert_eq!(AchievementType::StreakMonth.display_name(), "Monthly Champion");
    assert_eq!(AchievementType::TotalHours100.display_name(), "Century Master");
    assert_eq!(AchievementType::HourMaster.description(), "Complete a single session over 1 hour");
    assert_eq!(AchievementType::TaskMaster.description(), "Complete 50 tasks");
    assert_eq!(AchievementType::NightOwl.description(), "Complete a session after 11 PM");
}

#[test]
fn stored_achievement_type_falls_back_to_first_session() {
    assert_eq!(AchievementType::from_stored("night_owl"), AchievementType::NightOwl);
    assert_eq!(AchievementType::from_stored("???"), AchievementType::FirstSession);
}

#[test]
fn overview_lists_every_type_with_its_unlock_state() {
    let rows = vec![
        ("hour_master".to_string(), "2024-01-01 06:01:40".to_string()),
        ("made_up".to_string(), "2024-01-02 00:00:00".to_string()),
        ("hour_master".to_string(), "2024-02-01 00:00:00".to_string()),
    ];
    let overview = achievement_overview(&rows);
    assert_eq!(overview.len(), 10);
    for (i, kind) in AchievementType::all().into_iter().enumerate() {
        assert_eq!(overview[i].achievement_type, kind);
        assert_eq!(overview[i].name, kind.display_name());
        assert_eq!(overview[i].description, kind.description());
        if kind == AchievementType::HourMaster {
            assert!(overview[i].unlocked);
            assert_eq!(overview[i].unlocked_at.as_deref(), Some("2024-02-01 00:00:00"));
        } else {
            assert!(!overview[i].unlocked);
            assert_eq!(overview[i].unlocked_at, None);
        }
    }
}

#[test]
fn unlock_time_of_the_last_row_counts() {
    let rows = vec![
        ("a".to_string(), "1".to_string()),
        ("b".to_string(), "2".to_string()),
        ("a".to_string(), "3".to_string()),
    ];
    assert_eq!(find_unlock_time(&rows, "a").as_deref(), Some("3"));
    assert_eq!(find_unlock_time(&rows, "b").as_deref(), Some("2"));
    assert_eq!(find_unlock_time(&rows, "c"), None);
    assert_eq!(find_unlock_time(&Vec::new(), "a"), None);
}

#[test]
fn rows_are_decoded() {
    let user = User::from_row(
        "u1".to_string(),
        "Ada".to_string(),
        None,
        Some("a.png".to_string()),
        "2024-01-01".to_string(),
        1,
        "2024-01-01 00:00:00".to_string(),
        "2024-01-02 00:00:00".to_string(),
    );
    assert!(user.is_premium);
    assert_eq!(user.avatar_path.as_deref(), Some("a.png"));
    let other = User::from_row(
        "u2".to_string(),
        "Bob".to_string(),
        Some("b@x.org".to_string()),
        None,
        "2024-01-01".to_string(),
        2,
        "c".to_string(),
        "d".to_string(),
    );
    assert!(!other.is_premium);

    let task = Task::from_row(
        "t1".to_string(),
        "u1".to_string(),
        "Write".to_string(),
        "Event",
        "2024-01-05".to_string(),
        "09:00".to_string(),
        "10:00".to_string(),
        1,
        "2024-01-01 00:00:00".to_string(),
    );
    assert_eq!(task.category, TaskCategory::Event);
    assert!(task.completed);
    let odd = Task::from_row(
        "t2".to_string(),
        "u1".to_string(),
        "Read".to_string(),
        "Chore",
        "2024-01-05".to_string(),
        "09:00".to_string(),
        "10:00".to_string(),
        0,
        "2024-01-01 00:00:00".to_string(),
    );
    assert_eq!(odd.category, TaskCategory::ToDo);
    assert!(!odd.completed);

    let record = Achievement::from_row(
        "a1".to_string(),
        "u1".to_string(),
        "streak_week",
        "2024-03-07 00:00:00".to_string(),
        None,
    );
    assert_eq!(record.achievement_type, AchievementType::StreakWeek);
    let unknown = Achievement::from_row(
        "a2".to_string(),
        "u1".to_string(),
        "mystery",
        "2024-03-07 00:00:00".to_string(),
        Some("{}".to_string()),
    );
    assert_eq!(unknown.achievement_type, AchievementType::FirstSession);
    assert_eq!(unknown.metadata.as_deref(), Some("{}"));
}

#[test]
fn toggled_flag_flips_between_one_and_zero() {
    assert_eq!(Task::toggled_flag(1), 0);
    assert_eq!(Task::toggled_flag(0), 1);
    assert_eq!(Task::toggled_flag(7), 1);
}

#[test]
fn deleting_the_current_user_clears_the_pointer() {
    assert_eq!(clear_pointer_to(Some("u1".to_string()), "u1"), None);
    assert_eq!(clear_pointer_to(Some("u1".to_string()), "u2"), Some("u1".to_string()));
    assert_eq!(clear_pointer_to(None, "u1"), None);
}

#[test]
fn failures_in_words() {
    assert_eq!(EngineError::AlreadyUnlocked.message(), "Achievement already unlocked");
    assert_eq!(EngineError::NotFound.message(), "Query returned no rows");
    let all = [
        EngineError::WrongUser,
        EngineError::NegativeDuration,
        EngineError::ShortTimestamp,
        EngineError::Overflow,
        EngineError::AlreadyUnlocked,
        EngineError::NotFound,
        EngineError::DuplicateId,
    ];
    for (i, a) in all.iter().enumerate() {
        assert!(!a.message().is_empty());
        for b in all.iter().skip(i + 1) {
            assert_ne!(a.message(), b.message());
        }
    }
    assert_eq!(EngineError::of_ledger(LedgerError::NegativeDuration), EngineError::NegativeDuration);
    assert_eq!(EngineError::of_ledger(LedgerError::ShortTimestamp), EngineError::ShortTimestamp);
    assert_eq!(EngineError::of_ledger(LedgerError::Overflow), EngineError::Overflow);
}

#[test]
fn listings_show_a_hundred_sessions_by_default() {
    assert_eq!(DEFAULT_SESSION_LIMIT, 100);
    assert_eq!(session_limit(None), 100);
    assert_eq!(session_limit(Some(5)), 5);
    assert_eq!(session_limit(Some(0)), 0);
    assert_eq!(session_limit(Some(-1)), -1);
}

#[test]
fn records_are_made_from_requests() {
    let session = FocusSession::from_request(
        "s1".to_string(),
        CreateFocusSessionRequest {
            user_id: "u1".to_string(),
            duration_seconds: 1500,
            started_at: "2024-01-01 05:00:00".to_string(),
            ended_at: "2024-01-01 05:25:00".to_string(),
            category: Some("deep".to_string()),
            notes: None,
        },
        "2024-01-01 05:25:01".to_string(),
    );
    assert_eq!(session.id, "s1");
    assert_eq!(session.user_id, "u1");
    assert_eq!(session.duration_seconds, 1500);
    assert_eq!(session.started_at, "2024-01-01 05:00:00");
    assert_eq!(session.ended_at, "2024-01-01 05:25:00");
    assert_eq!(session.category.as_deref(), Some("deep"));
    assert_eq!(session.notes, None);
    assert_eq!(session.created_at, "2024-01-01 05:25:01");

    let user = User::from_request(
        "u1".to_string(),
        CreateUserRequest { name: "Ada".to_string(), email: Some("ada@x.org".to_string()) },
        "2024-01-01".to_string(),
        "2024-01-01 05:00:00".to_string(),
    );
    assert_eq!(user.id, "u1");
    assert_eq!(user.name, "Ada");
    assert_eq!(user.email.as_deref(), Some("ada@x.org"));
    assert_eq!(user.avatar_path, None);
    assert_eq!(user.join_date, "2024-01-01");
    assert!(!user.is_premium);
    assert_eq!(user.created_at, "2024-01-01 05:00:00");
    assert_eq!(user.updated_at, "2024-01-01 05:00:00");

    let adopted = user.adopted_at("2024-06-01 00:00:00");
    assert_eq!(adopted.id, "u1");
    assert_eq!(adopted.name, "Ada");
    assert_eq!(adopted.join_date, "2024-01-01");
    assert_eq!(adopted.created_at, "2024-06-01 00:00:00");
    assert_eq!(adopted.updated_at, "2024-06-01 00:00:00");

    let record = Achievement::unlocked(
        "a1".to_string(),
        "u1".to_string(),
        AchievementType::EarlyBird,
        "2024-01-01 05:00:00".to_string(),
    );
    assert_eq!(record.id, "a1");
    assert_eq!(record.user_id, "u1");
    assert_eq!(record.achievement_type, AchievementType::EarlyBird);
    assert_eq!(record.unlocked_at, "2024-01-01 05:00:00");
    assert_eq!(record.metadata, None);
}
