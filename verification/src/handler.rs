//! The team tools: what each tool does to the stores, apart from starting
//! and stopping agents and from telling observers, which is the caller's
//! part.

use crate::clock::now_rfc3339;
use crate::error::StoreError;
use crate::ident::{fresh_task_id, is_random_uuid, task_id_text, ThreadId};
use crate::inbox::{after_broadcast, after_send, fresh_message, receives, InboxMessage, MessageView};
use crate::task::{
    claim_result, first_with_id, is_first_with_id, optional_task, task_views, TaskView,
    TeamTaskInfo, TeamTaskStatus,
};
use crate::task_list::{
    queue_of, queues_after_assign, queues_after_claim, queues_after_complete, queues_after_create,
    queues_after_init, TaskList,
};
use crate::team_manager::{
    config_outcome, create_outcome, first_named, found_outcome, member_views, position_of_member,
    teams_after_create, teams_with, with_member, without_member, MemberConfig, MemberView,
    TeamConfig, TeamManager, TeamView,
};
use crate::text::{optional_text, text_eq, texts};
use vstd::prelude::*;

verus! {

/// A tool of the team tools.
#[derive(Clone, Copy, Debug, PartialEq, Eq, Structural)]
pub enum TeamTool {
    CreateTeam,
    SpawnTeammate,
    AssignTask,
    SendTeamMessage,
    BroadcastTeamMessage,
    WaitForTeammates,
    GetTaskStatus,
    ShutdownTeammate,
    CleanupTeam,
    AcceptTask,
    CompleteTask,
    GetTasks,
    RequestShutdown,
}

/// The tool that is called by `name`, if `name` is the name of a tool.
pub open spec fn tool_named(name: Seq<char>) -> Option<TeamTool> {
    if name == "create_team"@ {
        Some(TeamTool::CreateTeam)
    } else if name == "spawn_teammate"@ {
        Some(TeamTool::SpawnTeammate)
    } else if name == "assign_task"@ {
        Some(TeamTool::AssignTask)
    } else if name == "send_team_message"@ {
        Some(TeamTool::SendTeamMessage)
    } else if name == "broadcast_team_message"@ {
        Some(TeamTool::BroadcastTeamMessage)
    } else if name == "wait_for_teammates"@ {
        Some(TeamTool::WaitForTeammates)
    } else if name == "get_task_status"@ {
        Some(TeamTool::GetTaskStatus)
    } else if name == "shutdown_teammate"@ {
        Some(TeamTool::ShutdownTeammate)
    } else if name == "cleanup_team"@ {
        Some(TeamTool::CleanupTeam)
    } else if name == "accept_task"@ {
        Some(TeamTool::AcceptTask)
    } else if name == "complete_task"@ {
        Some(TeamTool::CompleteTask)
    } else if name == "get_tasks"@ {
        Some(TeamTool::GetTasks)
    } else if name == "request_shutdown"@ {
        Some(TeamTool::RequestShutdown)
    } else {
        None
    }
}

/// The handler of the team tools.
#[derive(Clone, Copy, Debug, Default)]
pub struct TeamHandler;

impl TeamHandler {
    /// The tool that a call by `tool_name` is for; none where no tool has
    /// that name.
    pub fn tool(tool_name: &str) -> (tool: Option<TeamTool>)
        ensures
            tool == tool_named(tool_name@),
    {
        if text_eq(tool_name, "create_team") {
            Some(TeamTool::CreateTeam)
        } else if text_eq(tool_name, "spawn_teammate") {
            Some(TeamTool::SpawnTeammate)
        } else if text_eq(tool_name, "assign_task") {
            Some(TeamTool::AssignTask)
        } else if text_eq(tool_name, "send_team_message") {
            Some(TeamTool::SendTeamMessage)
        } else if text_eq(tool_name, "broadcast_team_message") {
            Some(TeamTool::BroadcastTeamMessage)
        } else if text_eq(tool_name, "wait_for_teammates") {
            Some(TeamTool::WaitForTeammates)
        } else if text_eq(tool_name, "get_task_status") {
            Some(TeamTool::GetTaskStatus)
        } else if text_eq(tool_name, "shutdown_teammate") {
            Some(TeamTool::ShutdownTeammate)
        } else if text_eq(tool_name, "cleanup_team") {
            Some(TeamTool::CleanupTeam)
        } else if text_eq(tool_name, "accept_task") {
            Some(TeamTool::AcceptTask)
        } else if text_eq(tool_name, "complete_task") {
            Some(TeamTool::CompleteTask)
        } else if text_eq(tool_name, "get_tasks") {
            Some(TeamTool::GetTasks)
        } else if text_eq(tool_name, "request_shutdown") {
            Some(TeamTool::RequestShutdown)
        } else {
            None
        }
    }
}

/// Creates the team and, where that succeeded, gives it a work queue.
pub fn handle_create_team(
    manager: &mut TeamManager,
    tasks: &mut TaskList,
    name: &str,
    leader_thread_id: ThreadId,
) -> (created: Result<TeamConfig, StoreError>)
    ensures
        final(manager).root() == old(manager).root(),
        final(tasks).root() == old(tasks).root(),
        exists|created_at: Seq<char>|
            {
                &&& config_outcome(created) == #[trigger] create_outcome(
                    old(manager)@,
                    name@,
                    leader_thread_id,
                    created_at,
                )
                &&& final(manager)@ == teams_after_create(
                    old(manager)@,
                    old(manager).root(),
                    name@,
                    leader_thread_id,
                    created_at,
                )
            },
        final(tasks)@ == if old(manager)@.contains_key(name@) {
            old(tasks)@
        } else {
            queues_after_init(old(tasks)@, name@)
        },
{
    let created = manager.create_team(name, leader_thread_id);
    if created.is_ok() {
        tasks.init(name);
    }
    created
}

/// The member that a teammate is once it was started: running, with the
/// prompt it was started with.
pub open spec fn started_member(
    name: Seq<char>,
    thread_id: ThreadId,
    role: Option<Seq<char>>,
    prompt: Seq<char>,
) -> MemberView {
    MemberView { name, thread_id, role, status: "running"@, prompt: Some(prompt) }
}

/// Records the teammate `name`, which runs as `thread_id`, as a member of
/// the team. Fails where the team does not exist.
pub fn handle_spawn_teammate(
    manager: &mut TeamManager,
    team_name: &str,
    name: &str,
    role: Option<String>,
    prompt: &str,
    thread_id: ThreadId,
) -> (recorded: Result<(), StoreError>)
    ensures
        final(manager).root() == old(manager).root(),
        recorded == found_outcome(old(manager)@, team_name@),
        final(manager)@ == teams_with(
            old(manager)@,
            team_name@,
            with_member(
                old(manager)@[team_name@],
                started_member(name@, thread_id, optional_text(role), prompt@),
            ),
        ),
{
    let member = MemberConfig {
        name: name.to_owned(),
        thread_id,
        role,
        status: "running".to_owned(),
        prompt: Some(prompt.to_owned()),
    };
    manager.add_member(team_name, member)
}

/// A task as it is created: pending, and held by whom it was created for.
pub open spec fn created_task(
    id: Seq<char>,
    title: Seq<char>,
    assigned_to: Option<Seq<char>>,
    depends_on: Seq<Seq<char>>,
) -> TaskView {
    TaskView { id, title, status: TeamTaskStatus::Pending, assigned_to, depends_on }
}

/// The queues after a task with the given id was created for the team and,
/// where it was created for somebody, handed to that teammate.
pub open spec fn queues_after_new_task(
    queues: Map<Seq<char>, Seq<TaskView>>,
    team: Seq<char>,
    task: TaskView,
) -> Map<Seq<char>, Seq<TaskView>> {
    let created = queues_after_create(queues_after_init(queues, team), team, task);
    match task.assigned_to {
        Some(assignee) => queues_after_assign(created, team, task.id, assignee),
        None => created,
    }
}

/// Creates the task `id` at the end of the team's queue and, where it is
/// created for somebody, hands the team's first task of that id to that
/// teammate. Returns the task as it was created.
pub fn create_task_with_id(
    tasks: &mut TaskList,
    team_name: &str,
    id: String,
    title: &str,
    assigned_to: Option<String>,
    depends_on: Vec<String>,
) -> (task: TeamTaskInfo)
    ensures
        final(tasks).root() == old(tasks).root(),
        task@ == created_task(id@, title@, optional_text(assigned_to), texts(depends_on@)),
        final(tasks)@ == queues_after_new_task(old(tasks)@, team_name@, task@),
{
    tasks.init(team_name);
    let task = TeamTaskInfo {
        id,
        title: title.to_owned(),
        status: TeamTaskStatus::Pending,
        assigned_to,
        depends_on,
    };
    tasks.create_task(team_name, task.clone());
    match &task.assigned_to {
        Some(assignee) => {
            let _ = tasks.assign_task(team_name, task.id.as_str(), assignee.as_str());
            proof {
                let created = queues_after_create(
                    queues_after_init(old(tasks)@, team_name@),
                    team_name@,
                    task@,
                );
                let queue = queue_of(created, team_name@);
                assert(queue.last().id == task@.id);
                lemma_some_task_has_id(queue, task@.id, queue.len() - 1);
            }
        },
        None => {},
    }
    task
}

/// Where some task carries the id, there is a first one that does.
proof fn lemma_some_task_has_id(tasks: Seq<TaskView>, id: Seq<char>, j: int)
    requires
        0 <= j < tasks.len(),
        tasks[j].id == id,
    ensures
        first_with_id(tasks, id) is Some,
    decreases j,
{
    if forall|k: int| 0 <= k < j ==> (#[trigger] tasks[k]).id != id {
        assert(is_first_with_id(tasks, id, j));
    } else {
        let k = choose|k: int| 0 <= k < j && (#[trigger] tasks[k]).id == id;
        lemma_some_task_has_id(tasks, id, k);
    }
}

/// Creates a task with a fresh id at the end of the team's queue and,
/// where it is created for somebody, hands it to that teammate. Returns the
/// task as it was created.
pub fn handle_assign_task(
    tasks: &mut TaskList,
    team_name: &str,
    title: &str,
    assigned_to: Option<String>,
    depends_on: Vec<String>,
) -> (task: TeamTaskInfo)
    ensures
        final(tasks).root() == old(tasks).root(),
        exists|bits: u128|
            is_random_uuid(bits) && task@ == created_task(
                #[trigger] task_id_text(bits),
                title@,
                optional_text(assigned_to),
                texts(depends_on@),
            ),
        final(tasks)@ == queues_after_new_task(old(tasks)@, team_name@, task@),
{
    let id = fresh_task_id();
    create_task_with_id(tasks, team_name, id, title, assigned_to, depends_on)
}

/// `team` after `message` was sent to `to`.
pub open spec fn with_message(team: TeamView, to: Seq<char>, message: MessageView) -> TeamView {
    TeamView { inbox_ready: true, boxes: after_send(team.boxes, to, message), ..team }
}

/// Sends `to` in the team a message from `from` with the given content and
/// time of sending. Fails where the team does not exist.
pub fn post_message(
    manager: &mut TeamManager,
    team_name: &str,
    to: &str,
    from: &str,
    content: &str,
    timestamp: &str,
) -> (sent: Result<(), StoreError>)
    ensures
        final(manager).root() == old(manager).root(),
        sent == found_outcome(old(manager)@, team_name@),
        final(manager)@ == teams_with(
            old(manager)@,
            team_name@,
            with_message(
                old(manager)@[team_name@],
                to@,
                fresh_message(from@, content@, timestamp@),
            ),
        ),
{
    match manager.take_team(team_name) {
        Some(mut team) => {
            let message = InboxMessage {
                from: from.to_owned(),
                timestamp: timestamp.to_owned(),
                content: content.to_owned(),
                read: false,
            };
            team.inbox.send_message(to, message);
            manager.put_team(team_name, team);
            assert(manager@ =~= teams_with(
                old(manager)@,
                team_name@,
                with_message(
                    old(manager)@[team_name@],
                    to@,
                    fresh_message(from@, content@, timestamp@),
                ),
            ));
            Ok(())
        },
        None => {
            assert(manager@ =~= old(manager)@);
            Err(StoreError::NotFound)
        },
    }
}

/// Sends `to` in the team a message from the leader, sent now. Fails where
/// the team does not exist.
pub fn handle_send_team_message(
    manager: &mut TeamManager,
    team_name: &str,
    to: &str,
    content: &str,
) -> (sent: Result<(), StoreError>)
    ensures
        final(manager).root() == old(manager).root(),
        sent == found_outcome(old(manager)@, team_name@),
        exists|timestamp: Seq<char>|
            final(manager)@ == teams_with(
                old(manager)@,
                team_name@,
                with_message(
                    old(manager)@[team_name@],
                    to@,
                    #[trigger] fresh_message("leader"@, content@, timestamp),
                ),
            ),
{
    let stamp = now_rfc3339();
    let sent = post_message(manager, team_name, to, "leader", content, stamp.as_str());
    assert(manager@ == teams_with(
        old(manager)@,
        team_name@,
        with_message(old(manager)@[team_name@], to@, fresh_message("leader"@, content@, stamp@)),
    ));
    sent
}

/// Tells the leader of the team, in a message from the teammate itself
/// that is sent now, that the teammate asks to be shut down. Fails where
/// the team does not exist.
pub fn handle_request_shutdown(manager: &mut TeamManager, team_name: &str) -> (sent: Result<
    (),
    StoreError,
>)
    ensures
        final(manager).root() == old(manager).root(),
        sent == found_outcome(old(manager)@, team_name@),
        exists|timestamp: Seq<char>|
            final(manager)@ == teams_with(
                old(manager)@,
                team_name@,
                with_message(
                    old(manager)@[team_name@],
                    "leader"@,
                    #[trigger] fresh_message(
                        "self"@,
                        "Requesting shutdown \u{2014} work complete."@,
                        timestamp,
                    ),
                ),
            ),
{
    let stamp = now_rfc3339();
    let sent = post_message(
        manager,
        team_name,
        "leader",
        "self",
        "Requesting shutdown \u{2014} work complete.",
        stamp.as_str(),
    );
    assert(manager@ == teams_with(
        old(manager)@,
        team_name@,
        with_message(
            old(manager)@[team_name@],
            "leader"@,
            fresh_message("self"@, "Requesting shutdown \u{2014} work complete."@, stamp@),
        ),
    ));
    sent
}

/// `team` after the leader broadcast `content` at `timestamp` to all but
/// itself.
pub open spec fn with_leader_broadcast(
    team: TeamView,
    content: Seq<char>,
    timestamp: Seq<char>,
) -> TeamView {
    TeamView {
        inbox_ready: team.inbox_ready || exists|agent: Seq<char>|
            team.boxes.contains_key(agent) && receives(agent, "leader"@, true),
        boxes: after_broadcast(team.boxes, "leader"@, content, true, timestamp),
        ..team
    }
}

/// Sends every agent of the team that has a mailbox, but for the leader,
/// a message from the leader, sent now. Fails where the team does not exist.
pub fn handle_broadcast_team_message(
    manager: &mut TeamManager,
    team_name: &str,
    content: &str,
) -> (sent: Result<(), StoreError>)
    ensures
        final(manager).root() == old(manager).root(),
        sent == found_outcome(old(manager)@, team_name@),
        exists|timestamp: Seq<char>|
            final(manager)@ == teams_with(
                old(manager)@,
                team_name@,
                #[trigger] with_leader_broadcast(old(manager)@[team_name@], content@, timestamp),
            ),
{
    match manager.take_team(team_name) {
        Some(mut team) => {
            let ghost before = team@;
            team.inbox.broadcast("leader", content, true);
            let ghost timestamp = choose|timestamp: Seq<char>|
                team.inbox@ == after_broadcast(before.boxes, "leader"@, content@, true, timestamp);
            manager.put_team(team_name, team);
            assert(manager@ =~= teams_with(
                old(manager)@,
                team_name@,
                with_leader_broadcast(old(manager)@[team_name@], content@, timestamp),
            ));
            Ok(())
        },
        None => {
            assert(manager@ =~= old(manager)@);
            assert(manager@ == teams_with(
                old(manager)@,
                team_name@,
                with_leader_broadcast(old(manager)@[team_name@], content@, Seq::empty()),
            ));
            Err(StoreError::NotFound)
        },
    }
}

/// The members of the team, whose state the caller is to ask for. Fails
/// where the team does not exist.
pub fn handle_wait_for_teammates(
    manager: &TeamManager,
    team_name: &str,
) -> (members: Result<Vec<MemberConfig>, StoreError>)
    ensures
        match members {
            Ok(members) => manager@.contains_key(team_name@) && member_views(members@)
                == manager@[team_name@].config.members,
            Err(error) => !manager@.contains_key(team_name@) && error == StoreError::NotFound,
        },
{
    match manager.load_config(team_name) {
        Ok(config) => Ok(config.members),
        Err(error) => Err(error),
    }
}

/// The team's tasks in creation order.
pub fn handle_get_task_status(tasks: &TaskList, team_name: &str) -> (listed: Vec<TeamTaskInfo>)
    ensures
        task_views(listed@) == queue_of(tasks@, team_name@),
{
    tasks.get_all_tasks(team_name)
}

/// Why a teammate could not be taken off its team.
#[derive(Clone, Copy, Debug, PartialEq, Eq, Structural)]
pub enum ShutdownError {
    /// The team does not exist.
    TeamNotFound,
    /// The team has no member of that name.
    TeammateNotFound,
}

/// What taking the teammate `name` off the team answers: the handle of the
/// first member of that name, or why there is none.
pub open spec fn shutdown_outcome(
    teams: Map<Seq<char>, TeamView>,
    team: Seq<char>,
    name: Seq<char>,
) -> Result<ThreadId, ShutdownError> {
    if !teams.contains_key(team) {
        Err(ShutdownError::TeamNotFound)
    } else {
        match first_named(teams[team].config.members, name) {
            Some(i) => Ok(teams[team].config.members[i].thread_id),
            None => Err(ShutdownError::TeammateNotFound),
        }
    }
}

/// Takes the teammate `name` off the team: every member of that name
/// leaves, and the handle of the first of them is returned for the caller
/// to stop the agent. Nothing changes where the team or the teammate does
/// not exist.
pub fn handle_shutdown_teammate(
    manager: &mut TeamManager,
    team_name: &str,
    name: &str,
) -> (stopped: Result<ThreadId, ShutdownError>)
    ensures
        final(manager).root() == old(manager).root(),
        stopped == shutdown_outcome(old(manager)@, team_name@, name@),
        final(manager)@ == if stopped is Ok {
            teams_with(old(manager)@, team_name@, without_member(old(manager)@[team_name@], name@))
        } else {
            old(manager)@
        },
{
    let found = match manager.team(team_name) {
        Some(team) => {
            match position_of_member(&team.config.members, name) {
                Some(i) => Ok(team.config.members[i].thread_id),
                None => Err(ShutdownError::TeammateNotFound),
            }
        },
        None => Err(ShutdownError::TeamNotFound),
    };
    if found.is_ok() {
        let _ = manager.remove_member(team_name, name);
    }
    found
}

/// The handles of a run of members, in order.
pub open spec fn member_handles(members: Seq<MemberView>) -> Seq<ThreadId> {
    Seq::new(members.len(), |i: int| members[i].thread_id)
}

/// Discards the team with its mailboxes and its work queue, and returns
/// the handles of the members it had for the caller to stop their agents:
/// none where the team did not exist.
pub fn handle_cleanup_team(
    manager: &mut TeamManager,
    tasks: &mut TaskList,
    team_name: &str,
) -> (members: Vec<ThreadId>)
    ensures
        final(manager).root() == old(manager).root(),
        final(tasks).root() == old(tasks).root(),
        final(manager)@ == old(manager)@.remove(team_name@),
        final(tasks)@ == old(tasks)@.remove(team_name@),
        members@ == if old(manager)@.contains_key(team_name@) {
            member_handles(old(manager)@[team_name@].config.members)
        } else {
            Seq::empty()
        },
{
    let mut handles: Vec<ThreadId> = Vec::new();
    match manager.team(team_name) {
        Some(team) => {
            let mut i: usize = 0;
            while i < team.config.members.len()
                invariant
                    i <= team.config.members@.len(),
                    handles@.len() == i,
                    forall|j: int|
                        0 <= j < i ==> handles@[j] == (#[trigger] team.config.members@[j]).thread_id,
                decreases team.config.members@.len() - i,
            {
                handles.push(team.config.members[i].thread_id);
                i += 1;
            }
            assert(handles@ =~= member_handles(team@.config.members));
        },
        None => {},
    }
    manager.cleanup_team(tasks, team_name);
    handles
}

/// Hands the team's next claimable task to the teammate that asks, which
/// is known to the queue as `self`.
pub fn handle_accept_task(tasks: &mut TaskList, team_name: &str) -> (accepted: Option<TeamTaskInfo>)
    ensures
        final(tasks).root() == old(tasks).root(),
        optional_task(accepted) == claim_result(queue_of(old(tasks)@, team_name@), "self"@),
        final(tasks)@ == queues_after_claim(old(tasks)@, team_name@, "self"@),
{
    tasks.accept_next_task(team_name, "self")
}

/// Completes the team's task `task_id` and says whether the team has such
/// a task.
pub fn handle_complete_task(tasks: &mut TaskList, team_name: &str, task_id: &str) -> (known: bool)
    ensures
        final(tasks).root() == old(tasks).root(),
        known == first_with_id(queue_of(old(tasks)@, team_name@), task_id@).is_some(),
        final(tasks)@ == queues_after_complete(old(tasks)@, team_name@, task_id@),
{
    tasks.complete_task(team_name, task_id)
}

/// The team's tasks in creation order.
pub fn handle_get_tasks(tasks: &TaskList, team_name: &str) -> (listed: Vec<TeamTaskInfo>)
    ensures
        task_views(listed@) == queue_of(tasks@, team_name@),
{
    tasks.get_all_tasks(team_name)
}

} // verus!
