use flow_engine::order::{sort, Ranked};
use flow_engine::session::FocusSession;
use flow_engine::task::{Task, TaskCategory};

fn session(id: &str, started_at: &str) -> FocusSession {
    FocusSession {
        id: id.to_string(),
        user_id: "u1".to_string(),
        duration_seconds: 60,
        started_at: started_at.to_string(),
        ended_at: "e".to_string(),
        category: None,
        notes: None,
        created_at: "c".to_string(),
    }
}

fn task(id: &str, date: &str, start_time: &str) -> Task {
    Task {
        id: id.to_string(),
        user_id: "u1".to_string(),
        title: "x".to_string(),
        category: TaskCategory::ToDo,
        date: date.to_string(),
        start_time: start_time.to_string(),
        end_time: "z".to_string(),
        completed: false,
        created_at: "c".to_string(),
    }
}

#[test]
fn sessions_are_sorted_by_their_start() {
    let sorted = sort(vec![
        session("c", "2024-03-01 10:00:00"),
        session("a", "2023-12-31 23:59:59"),
        session("d", "2024-03-01 10:00:01"),
        session("b", "2024-01-15 00:00:00"),
    ]);
    let ids: Vec<&str> = sorted.iter().map(|s| s.id.as_str()).collect();
    assert_eq!(ids, vec!["a", "b", "c", "d"]);
    assert!(sort(Vec::<FocusSession>::new()).is_empty());
    assert_eq!(sort(vec![session("only", "x")]).len(), 1);
}

#[test]
fn rows_with_equal_keys_are_all_kept() {
    let sorted = sort(vec![
        session("x", "2024-01-01 00:00:00"),
        session("y", "2024-01-01 00:00:00"),
        session("z", "2023-01-01 00:00:00"),
        session("x", "2024-01-01 00:00:00"),
    ]);
    assert_eq!(sorted.len(), 4);
    assert_eq!(sorted[0].id, "z");
    let mut rest: Vec<&str> = sorted[1..].iter().map(|s| s.id.as_str()).collect();
    rest.sort();
    assert_eq!(rest, vec!["x", "x", "y"]);
}

#[test]
fn tasks_are_sorted_by_date_then_start_time() {
    let sorted = sort(vec![
        task("e", "2024-02-02", "07:00"),
        task("b", "2024-02-01", "09:00"),
        task("d", "2024-02-01", "18:30"),
        task("a", "2024-01-31", "23:00"),
        task("c", "2024-02-01", "10:00"),
    ]);
    let ids: Vec<&str> = sorted.iter().map(|t| t.id.as_str()).collect();
    assert_eq!(ids, vec!["a", "b", "c", "d", "e"]);
}

#[test]
fn the_order_of_rows() {
    assert!(session("a", "2024-01-01").comes_before(&session("b", "2024-01-02")));
    assert!(!session("a", "2024-01-02").comes_before(&session("b", "2024-01-01")));
    assert!(!session("a", "2024-01-01").comes_before(&session("b", "2024-01-01")));
    assert!(task("a", "2024-01-01", "23:00").comes_before(&task("b", "2024-01-02", "00:00")));
    assert!(task("a", "2024-01-01", "08:00").comes_before(&task("b", "2024-01-01", "09:00")));
    assert!(!task("a", "2024-01-01", "09:00").comes_before(&task("b", "2024-01-01", "09:00")));
    assert!(!task("a", "2024-01-02", "00:00").comes_before(&task("b", "2024-01-01", "23:00")));
}
