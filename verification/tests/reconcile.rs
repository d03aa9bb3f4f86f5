use flow_engine::achievement::{Achievement, AchievementType};
use flow_engine::reconcile::{all_owned, find_clash, is_clash_free, keep_clear, merge, Record};
use flow_engine::session::FocusSession;
use flow_engine::settings::{
    apply_settings, find_key, get_setting, keys_are_distinct, put_setting, remove_setting, SettingEntry,
};
use flow_engine::snapshot::{ExportData, ImportResult};
use flow_engine::task::{Task, TaskCategory};
use flow_engine::user::User;

fn session(id: &str, user: &str, seconds: i64) -> FocusSession {
    FocusSession {
        id: id.to_string(),
        user_id: user.to_string(),
        duration_seconds: seconds,
        started_at: "2024-01-01 05:00:00".to_string(),
        ended_at: "2024-01-01 06:00:00".to_string(),
        category: None,
        notes: Some("n".to_string()),
        created_at: "2024-01-01 06:00:01".to_string(),
    }
}

fn task(id: &str, user: &str, title: &str) -> Task {
    Task {
        id: id.to_string(),
        user_id: user.to_string(),
        title: title.to_string(),
        category: TaskCategory::Event,
        date: "2024-01-05".to_string(),
        start_time: "09:00".to_string(),
        end_time: "10:00".to_string(),
        completed: true,
        created_at: "2024-01-01 00:00:00".to_string(),
    }
}

fn unlock(id: &str, user: &str, kind: AchievementType) -> Achievement {
    Achievement {
        id: id.to_string(),
        user_id: user.to_string(),
        achievement_type: kind,
        unlocked_at: "2024-01-01 00:00:00".to_string(),
        metadata: None,
    }
}

fn entry(key: &str, value: &str) -> SettingEntry {
    SettingEntry { key: key.to_string(), value: value.to_string() }
}

fn ids(rows: &Vec<FocusSession>) -> Vec<String> {
    rows.iter().map(|r| r.id.clone()).collect()
}

fn pairs(table: &Vec<SettingEntry>) -> Vec<(String, String)> {
    table.iter().map(|e| (e.key.clone(), e.value.clone())).collect()
}

#[test]
fn rows_with_new_identifiers_are_inserted_as_the_owners() {
    let mut table = vec![session("s1", "u1", 100)];
    let incoming = vec![session("s2", "someone", 200), session("s3", "u1", 300)];
    assert_eq!(merge(&mut table, &incoming, "u1"), 2);
    assert_eq!(ids(&table), vec!["s1", "s2", "s3"]);
    assert!(table.iter().all(|r| r.user_id == "u1"));
    assert_eq!(table[1].duration_seconds, 200);
    assert_eq!(table[1].notes.as_deref(), Some("n"));
}

#[test]
fn existing_rows_win() {
    let mut table = vec![session("s1", "u1", 100)];
    let incoming = vec![session("s1", "u1", 999)];
    assert_eq!(merge(&mut table, &incoming, "u1"), 0);
    assert_eq!(table.len(), 1);
    assert_eq!(table[0].duration_seconds, 100);
}

#[test]
fn a_row_that_comes_twice_is_inserted_once() {
    let mut table = Vec::new();
    let incoming = vec![session("s1", "u1", 1), session("s1", "u1", 2), session("s2", "u1", 3)];
    assert_eq!(merge(&mut table, &incoming, "u1"), 2);
    assert_eq!(ids(&table), vec!["s1", "s2"]);
    assert_eq!(table[0].duration_seconds, 1);
}

#[test]
fn a_second_merge_inserts_nothing() {
    let mut table = vec![session("s0", "u1", 5)];
    let incoming = vec![session("s1", "x", 1), session("s0", "x", 2), session("s2", "x", 3)];
    assert_eq!(merge(&mut table, &incoming, "u1"), 2);
    let after_first = ids(&table);
    assert_eq!(merge(&mut table, &incoming, "u1"), 0);
    assert_eq!(ids(&table), after_first);
    assert_eq!(merge(&mut table, &Vec::new(), "u1"), 0);
}

#[test]
fn tasks_are_merged_by_identifier() {
    let mut table = vec![task("t1", "u1", "mine")];
    let incoming = vec![task("t1", "u1", "theirs"), task("t2", "u9", "new")];
    assert_eq!(merge(&mut table, &incoming, "u1"), 1);
    assert_eq!(table.len(), 2);
    assert_eq!(table[0].title, "mine");
    assert_eq!(table[1].title, "new");
    assert_eq!(table[1].user_id, "u1");
    assert_eq!(table[1].category, TaskCategory::Event);
    assert!(table[1].completed);
}

#[test]
fn a_user_has_one_unlock_record_of_each_type() {
    let mut table = vec![unlock("a1", "u1", AchievementType::FirstSession)];
    let incoming = vec![
        unlock("a2", "u1", AchievementType::FirstSession),
        unlock("a1", "u1", AchievementType::NightOwl),
        unlock("a3", "other", AchievementType::HourMaster),
        unlock("a4", "u1", AchievementType::HourMaster),
    ];
    assert_eq!(merge(&mut table, &incoming, "u1"), 1);
    let kept: Vec<(String, AchievementType)> =
        table.iter().map(|r| (r.id.clone(), r.achievement_type)).collect();
    assert_eq!(
        kept,
        vec![
            ("a1".to_string(), AchievementType::FirstSession),
            ("a3".to_string(), AchievementType::HourMaster),
        ]
    );
    assert!(find_clash(&table, &unlock("zz", "u1", AchievementType::HourMaster)));
    assert!(!find_clash(&table, &unlock("zz", "u2", AchievementType::HourMaster)));
    assert!(find_clash(&table, &unlock("a1", "u2", AchievementType::TaskMaster)));
    assert!(unlock("a", "u", AchievementType::EarlyBird)
        .clashes_with(&unlock("a", "w", AchievementType::NightOwl)));
}

#[test]
fn adopted_rows_keep_everything_but_the_owner() {
    let row = session("s1", "u1", 100).adopted("u2");
    assert_eq!(row.id, "s1");
    assert_eq!(row.user_id, "u2");
    assert_eq!(row.duration_seconds, 100);
    assert_eq!(row.started_at, "2024-01-01 05:00:00");
    assert_eq!(row.created_at, "2024-01-01 06:00:01");
}

#[test]
fn last_write_to_a_setting_wins() {
    let mut table = Vec::new();
    put_setting(&mut table, "theme", "dark");
    put_setting(&mut table, "sound", "on");
    put_setting(&mut table, "theme", "light");
    assert_eq!(
        pairs(&table),
        vec![("theme".to_string(), "light".to_string()), ("sound".to_string(), "on".to_string())]
    );
    assert_eq!(get_setting(&table, "theme").as_deref(), Some("light"));
    assert_eq!(get_setting(&table, "volume"), None);
    assert_eq!(find_key(&table, "sound"), 1);
    assert_eq!(find_key(&table, "volume"), 2);
}

#[test]
fn settings_can_be_deleted() {
    let mut table = vec![entry("a", "1"), entry("b", "2"), entry("c", "3")];
    remove_setting(&mut table, "b");
    assert_eq!(pairs(&table), vec![("a".to_string(), "1".to_string()), ("c".to_string(), "3".to_string())]);
    remove_setting(&mut table, "b");
    assert_eq!(table.len(), 2);
}

#[test]
fn incoming_settings_overwrite_and_can_be_applied_again() {
    let mut table = vec![entry("theme", "dark"), entry("lang", "en")];
    let incoming = vec![entry("theme", "light"), entry("goal", "4"), entry("theme", "blue")];
    assert_eq!(apply_settings(&mut table, &incoming), 3);
    let once = pairs(&table);
    assert_eq!(
        once,
        vec![
            ("theme".to_string(), "blue".to_string()),
            ("lang".to_string(), "en".to_string()),
            ("goal".to_string(), "4".to_string()),
        ]
    );
    assert_eq!(apply_settings(&mut table, &incoming), 3);
    assert_eq!(pairs(&table), once);
}

#[test]
fn the_account_of_an_import() {
    let account = ImportResult::summarize(3, 0, 12, 1);
    assert!(account.success);
    assert_eq!(account.sessions_imported, 3);
    assert_eq!(account.tasks_imported, 0);
    assert_eq!(account.achievements_imported, 12);
    assert_eq!(account.settings_imported, 1);
    assert_eq!(account.message, "Imported 3 sessions, 0 tasks, 12 achievements, 1 settings");
}

#[test]
fn a_snapshot_is_tagged_with_its_version() {
    let user = User {
        id: "u1".to_string(),
        name: "Ada".to_string(),
        email: None,
        avatar_path: None,
        join_date: "2024-01-01".to_string(),
        is_premium: false,
        created_at: "c".to_string(),
        updated_at: "c".to_string(),
    };
    let snapshot = ExportData::assemble(
        "2024-03-07 10:00:00".to_string(),
        user,
        vec![session("s1", "u1", 60)],
        Vec::new(),
        Vec::new(),
        vec![entry("theme", "dark")],
    );
    assert_eq!(snapshot.version, "1.0");
    assert_eq!(snapshot.exported_at, "2024-03-07 10:00:00");
    assert_eq!(snapshot.user.id, "u1");
    assert_eq!(snapshot.focus_sessions.len(), 1);
    assert_eq!(snapshot.settings[0].value, "dark");
}

#[test]
fn checks_of_tables() {
    assert!(all_owned(&vec![session("s1", "u1", 1), session("s2", "u1", 1)], "u1"));
    assert!(!all_owned(&vec![session("s1", "u1", 1), session("s2", "u2", 1)], "u1"));
    assert!(all_owned(&Vec::<Task>::new(), "u1"));
    assert_eq!(task("t1", "u7", "x").owner_id(), "u7");
    assert!(is_clash_free(&vec![
        unlock("a1", "u1", AchievementType::FirstSession),
        unlock("a2", "u1", AchievementType::HourMaster),
        unlock("a3", "u2", AchievementType::HourMaster),
    ]));
    assert!(!is_clash_free(&vec![
        unlock("a1", "u1", AchievementType::HourMaster),
        unlock("a2", "u1", AchievementType::FirstSession),
        unlock("a3", "u1", AchievementType::HourMaster),
    ]));
    assert!(!is_clash_free(&vec![
        unlock("a1", "u1", AchievementType::HourMaster),
        unlock("a1", "u2", AchievementType::FirstSession),
    ]));
    assert!(is_clash_free(&vec![session("s1", "u1", 1), session("s2", "u1", 1)]));
    assert!(!is_clash_free(&vec![session("s1", "u1", 1), session("s2", "u1", 1), session("s1", "u2", 5)]));
    assert!(is_clash_free(&Vec::<Task>::new()));
    assert!(keys_are_distinct(&vec![entry("a", "1"), entry("b", "1")]));
    assert!(!keys_are_distinct(&vec![entry("a", "1"), entry("b", "1"), entry("b", "2")]));
    assert!(keys_are_distinct(&Vec::new()));
}

#[test]
fn rows_that_clash_with_rows_of_others_are_left_out() {
    let others = vec![session("s2", "u9", 1), session("s5", "u8", 1)];
    let incoming = vec![
        session("s1", "x", 10),
        session("s2", "x", 20),
        session("s3", "x", 30),
        session("s5", "x", 50),
        session("s1", "x", 11),
    ];
    let kept = keep_clear(&incoming, &others, "u1");
    let shape: Vec<(String, String, i64)> =
        kept.iter().map(|s| (s.id.clone(), s.user_id.clone(), s.duration_seconds)).collect();
    assert_eq!(
        shape,
        vec![
            ("s1".to_string(), "u1".to_string(), 10),
            ("s3".to_string(), "u1".to_string(), 30),
            ("s1".to_string(), "u1".to_string(), 11),
        ]
    );
    assert!(keep_clear(&incoming, &incoming, "u1").is_empty());
    assert_eq!(keep_clear(&incoming, &Vec::new(), "u1").len(), 5);

    let foreign = vec![unlock("a1", "u2", AchievementType::FirstSession)];
    let kept = keep_clear(
        &vec![
            unlock("a1", "u1", AchievementType::HourMaster),
            unlock("a2", "u1", AchievementType::FirstSession),
        ],
        &foreign,
        "u1",
    );
    assert_eq!(kept.len(), 1);
    assert_eq!(kept[0].id, "a2");
}
