use agent_teams::task::{TaskListData, TeamTaskInfo, TeamTaskStatus};
use agent_teams::task_list::TaskList;

fn make_task(id: &str, title: &str, depends: &[&str]) -> TeamTaskInfo {
    TeamTaskInfo {
        id: id.to_string(),
        title: title.to_string(),
        status: TeamTaskStatus::Pending,
        assigned_to: None,
        depends_on: depends.iter().map(|s| s.to_string()).collect(),
    }
}

#[test]
fn create_and_accept_task() {
    let mut tl = TaskList::new("tasks".to_string());
    tl.init("team1");

    tl.create_task("team1", make_task("t1", "Task 1", &[]));

    let accepted = tl.accept_next_task("team1", "alice");
    assert!(accepted.is_some());
    assert_eq!(accepted.unwrap().id, "t1");

    // No more tasks available.
    let accepted = tl.accept_next_task("team1", "bob");
    assert!(accepted.is_none());
}

#[test]
fn dependency_blocks_accept() {
    let mut tl = TaskList::new("tasks".to_string());
    tl.init("team1");

    tl.create_task("team1", make_task("t1", "First", &[]));
    tl.create_task("team1", make_task("t2", "Second", &["t1"]));

    // Accept t1.
    let accepted = tl.accept_next_task("team1", "alice");
    assert_eq!(accepted.unwrap().id, "t1");

    // t2 is blocked because t1 is not completed yet.
    let accepted = tl.accept_next_task("team1", "bob");
    assert!(accepted.is_none());

    // Complete t1.
    tl.complete_task("team1", "t1");

    // Now t2 should be available.
    let accepted = tl.accept_next_task("team1", "bob");
    assert_eq!(accepted.unwrap().id, "t2");
}

#[test]
fn queue_hands_out_first_ready_task() {
    let mut queue = TaskListData::default();
    queue.push(make_task("t1", "First", &[]));
    queue.push(make_task("t2", "Second", &["t1"]));
    let accepted = queue.accept_next("alice").unwrap();
    assert_eq!(accepted.id, "t1");
    assert_eq!(accepted.title, "First");
    assert_eq!(accepted.status, TeamTaskStatus::InProgress);
    assert_eq!(accepted.assigned_to, Some("alice".to_string()));
    assert!(queue.accept_next("bob").is_none());
    assert!(queue.complete("t1"));
    assert_eq!(queue.accept_next("bob").unwrap().id, "t2");
}

#[test]
fn init_keeps_an_existing_queue() {
    let mut tl = TaskList::new("tasks".to_string());
    tl.init("team1");
    tl.create_task("team1", make_task("t1", "Task 1", &[]));
    tl.init("team1");
    assert_eq!(tl.get_all_tasks("team1").len(), 1);
}

#[test]
fn a_queue_exists_once_it_is_written() {
    let mut tl = TaskList::new("tasks".to_string());
    assert!(!tl.has_queue("team1"));
    assert!(tl.accept_next_task("team1", "alice").is_none());
    assert!(!tl.complete_task("team1", "t1"));
    assert!(!tl.has_queue("team1"));
    tl.init("team1");
    assert!(tl.has_queue("team1"));
    assert!(!tl.has_queue("team2"));
    tl.cleanup("team1");
    assert!(!tl.has_queue("team1"));
    tl.create_task("team2", make_task("t1", "Task 1", &[]));
    assert!(tl.has_queue("team2"));
}

#[test]
fn load_of_a_missing_queue_is_empty() {
    let tl = TaskList::new("tasks".to_string());
    assert!(tl.load("nobody").tasks.is_empty());
    assert!(tl.get_all_tasks("nobody").is_empty());
}

#[test]
fn create_task_appends_in_creation_order() {
    let mut tl = TaskList::new("tasks".to_string());
    tl.create_task("team1", make_task("a", "A", &[]));
    tl.create_task("team1", make_task("b", "B", &["a"]));
    tl.create_task("team2", make_task("c", "C", &[]));
    let tasks = tl.get_all_tasks("team1");
    assert_eq!(tasks, vec![make_task("a", "A", &[]), make_task("b", "B", &["a"])]);
    assert_eq!(tl.get_all_tasks("team2"), vec![make_task("c", "C", &[])]);
}

#[test]
fn accept_changes_the_stored_task() {
    let mut tl = TaskList::new("tasks".to_string());
    tl.create_task("team1", make_task("t1", "First", &[]));
    tl.create_task("team1", make_task("t2", "Second", &[]));
    let accepted = tl.accept_next_task("team1", "alice").unwrap();
    let tasks = tl.get_all_tasks("team1");
    assert_eq!(tasks[0], accepted);
    assert_eq!(tasks[0].status, TeamTaskStatus::InProgress);
    assert_eq!(tasks[0].assigned_to.as_deref(), Some("alice"));
    assert_eq!(tasks[1], make_task("t2", "Second", &[]));
}

#[test]
fn accept_skips_preassigned_and_started_tasks() {
    let mut tl = TaskList::new("tasks".to_string());
    let mut held = make_task("t1", "Held", &[]);
    held.assigned_to = Some("carol".to_string());
    tl.create_task("team1", held);
    let mut started = make_task("t2", "Started", &[]);
    started.status = TeamTaskStatus::InProgress;
    tl.create_task("team1", started);
    let mut done = make_task("t3", "Done", &[]);
    done.status = TeamTaskStatus::Completed;
    tl.create_task("team1", done);
    tl.create_task("team1", make_task("t4", "Free", &["t3"]));
    assert_eq!(tl.accept_next_task("team1", "alice").unwrap().id, "t4");
    assert!(tl.accept_next_task("team1", "alice").is_none());
}

#[test]
fn a_dependency_that_never_resolves_blocks_for_good() {
    let mut tl = TaskList::new("tasks".to_string());
    tl.create_task("team1", make_task("t1", "Blocked", &["missing"]));
    for _ in 0..5 {
        assert!(tl.accept_next_task("team1", "alice").is_none());
    }
    assert_eq!(tl.get_all_tasks("team1"), vec![make_task("t1", "Blocked", &["missing"])]);
}

#[test]
fn every_dependency_must_be_completed() {
    let mut tl = TaskList::new("tasks".to_string());
    tl.create_task("team1", make_task("a", "A", &[]));
    tl.create_task("team1", make_task("b", "B", &[]));
    tl.create_task("team1", make_task("c", "C", &["a", "b"]));
    assert_eq!(tl.accept_next_task("team1", "x").unwrap().id, "a");
    assert_eq!(tl.accept_next_task("team1", "y").unwrap().id, "b");
    assert!(tl.complete_task("team1", "a"));
    assert!(tl.accept_next_task("team1", "z").is_none());
    assert!(tl.complete_task("team1", "b"));
    assert_eq!(tl.accept_next_task("team1", "z").unwrap().id, "c");
}

#[test]
fn claims_are_handed_out_at_most_once() {
    let mut tl = TaskList::new("tasks".to_string());
    for i in 0..3 {
        tl.create_task("team1", make_task(&format!("t{i}"), "Task", &[]));
    }
    tl.create_task("team1", make_task("blocked", "Task", &["nothing"]));
    let claimants = ["a", "b", "c", "d", "e"];
    let mut granted = Vec::new();
    for who in claimants {
        if let Some(task) = tl.accept_next_task("team1", who) {
            assert_eq!(task.assigned_to.as_deref(), Some(who));
            granted.push(task.id);
        }
    }
    assert_eq!(granted, vec!["t0".to_string(), "t1".to_string(), "t2".to_string()]);
    let in_progress = tl
        .get_all_tasks("team1")
        .iter()
        .filter(|t| t.status == TeamTaskStatus::InProgress)
        .count();
    assert_eq!(in_progress, 3);
}

#[test]
fn fewer_claimants_than_tasks_leave_tasks_pending() {
    let mut tl = TaskList::new("tasks".to_string());
    for i in 0..4 {
        tl.create_task("team1", make_task(&format!("t{i}"), "Task", &[]));
    }
    assert_eq!(tl.accept_next_task("team1", "a").unwrap().id, "t0");
    assert_eq!(tl.accept_next_task("team1", "b").unwrap().id, "t1");
    let tasks = tl.get_all_tasks("team1");
    assert_eq!(tasks[2].status, TeamTaskStatus::Pending);
    assert_eq!(tasks[3].status, TeamTaskStatus::Pending);
}

#[test]
fn complete_task_is_idempotent() {
    let mut tl = TaskList::new("tasks".to_string());
    tl.create_task("team1", make_task("t1", "Task 1", &[]));
    assert!(tl.complete_task("team1", "t1"));
    let once = tl.get_all_tasks("team1");
    assert_eq!(once[0].status, TeamTaskStatus::Completed);
    assert!(tl.complete_task("team1", "t1"));
    assert_eq!(tl.get_all_tasks("team1"), once);
}

#[test]
fn complete_task_of_unknown_id_or_team_is_false() {
    let mut tl = TaskList::new("tasks".to_string());
    assert!(!tl.complete_task("team1", "t1"));
    assert!(tl.get_all_tasks("team1").is_empty());
    tl.create_task("team1", make_task("t1", "Task 1", &[]));
    assert!(!tl.complete_task("team1", "t2"));
    assert_eq!(tl.get_all_tasks("team1"), vec![make_task("t1", "Task 1", &[])]);
}

#[test]
fn complete_task_keeps_the_assignee() {
    let mut tl = TaskList::new("tasks".to_string());
    tl.create_task("team1", make_task("t1", "Task 1", &[]));
    tl.accept_next_task("team1", "alice");
    assert!(tl.complete_task("team1", "t1"));
    let tasks = tl.get_all_tasks("team1");
    assert_eq!(tasks[0].status, TeamTaskStatus::Completed);
    assert_eq!(tasks[0].assigned_to.as_deref(), Some("alice"));
}

#[test]
fn assign_task_starts_a_pending_task() {
    let mut tl = TaskList::new("tasks".to_string());
    tl.create_task("team1", make_task("t1", "Task 1", &["never"]));
    assert!(tl.assign_task("team1", "t1", "bob"));
    let tasks = tl.get_all_tasks("team1");
    assert_eq!(tasks[0].status, TeamTaskStatus::InProgress);
    assert_eq!(tasks[0].assigned_to.as_deref(), Some("bob"));
}

#[test]
fn assign_task_replaces_the_assignee_and_keeps_later_statuses() {
    let mut tl = TaskList::new("tasks".to_string());
    tl.create_task("team1", make_task("t1", "Task 1", &[]));
    tl.create_task("team1", make_task("t2", "Task 2", &[]));
    tl.accept_next_task("team1", "alice");
    assert!(tl.assign_task("team1", "t1", "bob"));
    tl.complete_task("team1", "t2");
    assert!(tl.assign_task("team1", "t2", "carol"));
    let tasks = tl.get_all_tasks("team1");
    assert_eq!(tasks[0].status, TeamTaskStatus::InProgress);
    assert_eq!(tasks[0].assigned_to.as_deref(), Some("bob"));
    assert_eq!(tasks[1].status, TeamTaskStatus::Completed);
    assert_eq!(tasks[1].assigned_to.as_deref(), Some("carol"));
}

#[test]
fn assign_task_of_unknown_id_is_false() {
    let mut tl = TaskList::new("tasks".to_string());
    tl.create_task("team1", make_task("t1", "Task 1", &[]));
    assert!(!tl.assign_task("team1", "nope", "bob"));
    assert!(!tl.assign_task("other", "t1", "bob"));
    assert_eq!(tl.get_all_tasks("team1"), vec![make_task("t1", "Task 1", &[])]);
}

#[test]
fn only_the_first_task_with_an_id_is_touched() {
    let mut queue = TaskListData::default();
    queue.push(make_task("dup", "One", &[]));
    queue.push(make_task("dup", "Two", &[]));
    assert!(queue.complete("dup"));
    assert_eq!(queue.tasks[0].status, TeamTaskStatus::Completed);
    assert_eq!(queue.tasks[1].status, TeamTaskStatus::Pending);
    assert!(queue.assign("dup", "bob"));
    assert_eq!(queue.tasks[0].assigned_to.as_deref(), Some("bob"));
    assert_eq!(queue.tasks[1].assigned_to, None);
}

#[test]
fn save_and_cleanup_replace_and_discard_a_queue() {
    let mut tl = TaskList::new("tasks".to_string());
    let mut data = TaskListData::default();
    data.push(make_task("t1", "Task 1", &[]));
    tl.save("team1", &data);
    assert_eq!(tl.load("team1"), data);
    tl.cleanup("team1");
    assert!(tl.get_all_tasks("team1").is_empty());
    tl.cleanup("team1");
    assert!(tl.get_all_tasks("team1").is_empty());
}

#[test]
fn queues_of_different_teams_do_not_mix() {
    let mut tl = TaskList::new("tasks".to_string());
    tl.create_task("team1", make_task("t1", "Task 1", &[]));
    tl.create_task("team2", make_task("t1", "Other", &[]));
    assert_eq!(tl.accept_next_task("team1", "alice").unwrap().title, "Task 1");
    assert_eq!(tl.get_all_tasks("team2")[0].status, TeamTaskStatus::Pending);
    tl.cleanup("team1");
    assert_eq!(tl.get_all_tasks("team2").len(), 1);
}

#[test]
fn task_paths_lie_below_the_root() {
    let tl = TaskList::new("/data/tasks".to_string());
    assert_eq!(tl.team_dir("team1"), "/data/tasks/team1");
    assert_eq!(tl.tasks_path("team1"), "/data/tasks/team1/tasks.json");
}
