use agent_teams::ident::ThreadId;
use agent_teams::task::{TeamTaskInfo, TeamTaskStatus};
use agent_teams::team_state::{
    AgentStatus, OverlayLine, TeamCreatedEvent, TeamMemberEvent, TeamMemberInfo, TeamState,
    TeamTaskEvent,
};

fn member_event(name: &str, id: u128, status: AgentStatus) -> TeamMemberEvent {
    TeamMemberEvent {
        team_name: "t1".to_string(),
        member: TeamMemberInfo {
            name: name.to_string(),
            thread_id: ThreadId::from_u128(id),
            role: None,
            status,
        },
    }
}

fn task_event(id: &str, title: &str, status: TeamTaskStatus, who: Option<&str>) -> TeamTaskEvent {
    TeamTaskEvent {
        team_name: "t1".to_string(),
        task: TeamTaskInfo {
            id: id.to_string(),
            title: title.to_string(),
            status,
            assigned_to: who.map(|w| w.to_string()),
            depends_on: vec![],
        },
    }
}

#[test]
fn a_new_state_observes_no_team() {
    let state = TeamState::default();
    assert!(!state.is_active());
    assert!(state.teammate_thread_ids().is_empty());
    assert_eq!(
        state.task_overlay_lines(),
        vec![
            OverlayLine::Team { name: "<no team>".to_string() },
            OverlayLine::Blank,
            OverlayLine::NoTasks,
        ]
    );
}

#[test]
fn a_created_team_is_observed() {
    let mut state = TeamState::default();
    state.on_team_created(&TeamCreatedEvent {
        team_name: "t1".to_string(),
        leader_thread_id: ThreadId::from_u128(1),
    });
    assert!(state.is_active());
    assert_eq!(state.team_name.as_deref(), Some("t1"));
    assert_eq!(state.leader_thread_id, Some(ThreadId::from_u128(1)));
}

#[test]
fn a_member_that_joins_again_replaces_itself() {
    let mut state = TeamState::default();
    state.on_member_added(&member_event("alice", 2, AgentStatus::PendingInit));
    state.on_member_added(&member_event("bob", 3, AgentStatus::Running));
    state.on_member_added(&member_event("alice", 2, AgentStatus::Running));
    assert_eq!(state.members.len(), 2);
    assert_eq!(state.members[0].name, "alice");
    assert_eq!(state.members[0].status, AgentStatus::Running);
    assert_eq!(state.members[1].name, "bob");
    assert_eq!(state.teammate_thread_ids(), vec![ThreadId::from_u128(2), ThreadId::from_u128(3)]);
}

#[test]
fn a_member_that_leaves_is_gone_by_its_handle() {
    let mut state = TeamState::default();
    state.on_member_added(&member_event("alice", 2, AgentStatus::Running));
    state.on_member_added(&member_event("bob", 3, AgentStatus::Running));
    state.on_member_removed(&member_event("whoever", 2, AgentStatus::Shutdown));
    assert_eq!(state.teammate_thread_ids(), vec![ThreadId::from_u128(3)]);
    state.on_member_removed(&member_event("bob", 9, AgentStatus::Shutdown));
    assert_eq!(state.members.len(), 1);
}

#[test]
fn a_task_update_replaces_the_first_task_of_that_id() {
    let mut state = TeamState::default();
    state.on_task_created(&task_event("a", "A", TeamTaskStatus::Pending, None));
    state.on_task_created(&task_event("b", "B", TeamTaskStatus::Pending, None));
    state.on_task_updated(&task_event("b", "B2", TeamTaskStatus::InProgress, Some("alice")));
    assert_eq!(state.tasks[1].title, "B2");
    assert_eq!(state.tasks[1].status, TeamTaskStatus::InProgress);
    assert_eq!(state.tasks[0].title, "A");
    state.on_task_updated(&task_event("zzz", "Z", TeamTaskStatus::Completed, None));
    assert_eq!(state.tasks.len(), 2);
}

#[test]
fn the_overlay_lists_tasks_and_counts_the_completed() {
    let mut state = TeamState::default();
    state.on_team_created(&TeamCreatedEvent {
        team_name: "t1".to_string(),
        leader_thread_id: ThreadId::from_u128(1),
    });
    state.on_task_created(&task_event("a", "A", TeamTaskStatus::Completed, Some("alice")));
    state.on_task_created(&task_event("b", "B", TeamTaskStatus::InProgress, Some("bob")));
    state.on_task_created(&task_event("c", "C", TeamTaskStatus::Pending, None));
    state.on_task_created(&task_event("d", "D", TeamTaskStatus::Completed, None));
    assert_eq!(
        state.task_overlay_lines(),
        vec![
            OverlayLine::Team { name: "t1".to_string() },
            OverlayLine::Blank,
            OverlayLine::Task {
                status: TeamTaskStatus::Completed,
                title: "A".to_string(),
                id: "a".to_string(),
                assigned_to: Some("alice".to_string()),
            },
            OverlayLine::Task {
                status: TeamTaskStatus::InProgress,
                title: "B".to_string(),
                id: "b".to_string(),
                assigned_to: Some("bob".to_string()),
            },
            OverlayLine::Task {
                status: TeamTaskStatus::Pending,
                title: "C".to_string(),
                id: "c".to_string(),
                assigned_to: None,
            },
            OverlayLine::Task {
                status: TeamTaskStatus::Completed,
                title: "D".to_string(),
                id: "d".to_string(),
                assigned_to: None,
            },
            OverlayLine::Blank,
            OverlayLine::Summary { done: 2, total: 4 },
        ]
    );
}

#[test]
fn cleanup_forgets_everything() {
    let mut state = TeamState::default();
    state.on_team_created(&TeamCreatedEvent {
        team_name: "t1".to_string(),
        leader_thread_id: ThreadId::from_u128(1),
    });
    state.on_member_added(&member_event("alice", 2, AgentStatus::Running));
    state.on_task_created(&task_event("a", "A", TeamTaskStatus::Pending, None));
    state.on_cleanup();
    assert_eq!(state, TeamState::default());
    assert!(!state.is_active());
}
