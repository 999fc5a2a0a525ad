//! What an observer knows of a team from the events it was told: the team,
//! its members and its tasks, and the lines in which the tasks are shown.

use crate::ident::ThreadId;
use crate::task::{
    first_with_id, lemma_first_with_id_is, lemma_first_with_id_none, task_views, TaskView,
    TeamTaskInfo, TeamTaskStatus,
};
use crate::text::optional_text;
use vstd::prelude::*;

verus! {

/// What the layer that runs the agents says of one agent.
#[derive(Clone, Copy, Debug, PartialEq, Eq, Structural)]
pub enum AgentStatus {
    PendingInit,
    Running,
    Completed,
    Errored,
    Shutdown,
    NotFound,
}

/// A member of a team as observers are told of it.
#[derive(Debug, PartialEq, Eq)]
pub struct TeamMemberInfo {
    pub name: String,
    pub thread_id: ThreadId,
    pub role: Option<String>,
    pub status: AgentStatus,
}

/// What a member is to an observer, as plain values.
pub struct MemberInfoView {
    pub name: Seq<char>,
    pub thread_id: ThreadId,
    pub role: Option<Seq<char>>,
    pub status: AgentStatus,
}

impl View for TeamMemberInfo {
    type V = MemberInfoView;

    open spec fn view(&self) -> MemberInfoView {
        MemberInfoView {
            name: self.name@,
            thread_id: self.thread_id,
            role: optional_text(self.role),
            status: self.status,
        }
    }
}

impl Clone for TeamMemberInfo {
    fn clone(&self) -> (copy: Self)
        ensures
            copy@ == self@,
    {
        TeamMemberInfo {
            name: self.name.clone(),
            thread_id: self.thread_id,
            role: self.role.clone(),
            status: self.status,
        }
    }
}

/// The views of a run of members, in order.
pub open spec fn member_info_views(members: Seq<TeamMemberInfo>) -> Seq<MemberInfoView> {
    Seq::new(members.len(), |i: int| members[i]@)
}

/// A team was created.
#[derive(Debug, PartialEq, Eq)]
pub struct TeamCreatedEvent {
    pub team_name: String,
    pub leader_thread_id: ThreadId,
}

/// A member joined or left a team.
#[derive(Debug, PartialEq, Eq)]
pub struct TeamMemberEvent {
    pub team_name: String,
    pub member: TeamMemberInfo,
}

/// A task of a team was created or changed.
#[derive(Debug, PartialEq, Eq)]
pub struct TeamTaskEvent {
    pub team_name: String,
    pub task: TeamTaskInfo,
}

/// One line of the overview of a team's tasks.
#[derive(Debug, PartialEq, Eq)]
pub enum OverlayLine {
    /// The name of the team.
    Team { name: String },
    /// An empty line.
    Blank,
    /// The team has no tasks.
    NoTasks,
    /// One task.
    Task { status: TeamTaskStatus, title: String, id: String, assigned_to: Option<String> },
    /// How many of the tasks are completed.
    Summary { done: usize, total: usize },
}

/// What a line of the overview is, as plain values.
pub enum OverlayLineView {
    Team { name: Seq<char> },
    Blank,
    NoTasks,
    Task {
        status: TeamTaskStatus,
        title: Seq<char>,
        id: Seq<char>,
        assigned_to: Option<Seq<char>>,
    },
    Summary { done: nat, total: nat },
}

impl View for OverlayLine {
    type V = OverlayLineView;

    open spec fn view(&self) -> OverlayLineView {
        match *self {
            OverlayLine::Team { name } => OverlayLineView::Team { name: name@ },
            OverlayLine::Blank => OverlayLineView::Blank,
            OverlayLine::NoTasks => OverlayLineView::NoTasks,
            OverlayLine::Task { status, title, id, assigned_to } => OverlayLineView::Task {
                status,
                title: title@,
                id: id@,
                assigned_to: optional_text(assigned_to),
            },
            OverlayLine::Summary { done, total } => OverlayLineView::Summary {
                done: done as nat,
                total: total as nat,
            },
        }
    }
}

/// The views of a run of lines, in order.
pub open spec fn line_views(lines: Seq<OverlayLine>) -> Seq<OverlayLineView> {
    Seq::new(lines.len(), |i: int| lines[i]@)
}

/// What an observer knows of a team.
#[derive(Debug, PartialEq, Eq)]
pub struct TeamState {
    pub team_name: Option<String>,
    pub leader_thread_id: Option<ThreadId>,
    pub members: Vec<TeamMemberInfo>,
    pub tasks: Vec<TeamTaskInfo>,
}

/// What an observer knows of a team, as plain values.
pub struct TeamStateView {
    pub team_name: Option<Seq<char>>,
    pub leader_thread_id: Option<ThreadId>,
    pub members: Seq<MemberInfoView>,
    pub tasks: Seq<TaskView>,
}

impl View for TeamState {
    type V = TeamStateView;

    open spec fn view(&self) -> TeamStateView {
        TeamStateView {
            team_name: optional_text(self.team_name),
            leader_thread_id: self.leader_thread_id,
            members: member_info_views(self.members@),
            tasks: task_views(self.tasks@),
        }
    }
}

/// `i` is the first member that runs as `thread_id`.
pub open spec fn is_first_running_as(
    members: Seq<MemberInfoView>,
    thread_id: ThreadId,
    i: int,
) -> bool {
    &&& 0 <= i < members.len()
    &&& members[i].thread_id == thread_id
    &&& forall|j: int| 0 <= j < i ==> (#[trigger] members[j]).thread_id != thread_id
}

/// The first member that runs as `thread_id`, if any does.
pub open spec fn first_running_as(members: Seq<MemberInfoView>, thread_id: ThreadId) -> Option<
    int,
> {
    if exists|i: int| is_first_running_as(members, thread_id, i) {
        Some(choose|i: int| is_first_running_as(members, thread_id, i))
    } else {
        None
    }
}

/// The members after `member` joined: it stands in place of the first
/// member with its handle, or at the end where no member has its handle.
pub open spec fn members_joined(members: Seq<MemberInfoView>, member: MemberInfoView) -> Seq<
    MemberInfoView,
> {
    match first_running_as(members, member.thread_id) {
        Some(i) => members.update(i, member),
        None => members.push(member),
    }
}

/// The members that do not run as `thread_id`.
pub open spec fn members_left(members: Seq<MemberInfoView>, thread_id: ThreadId) -> Seq<
    MemberInfoView,
> {
    members.filter(|member: MemberInfoView| member.thread_id != thread_id)
}

/// The tasks after `task` changed: it stands in place of the first task
/// with its id; nothing changes where no task has its id.
pub open spec fn tasks_updated(tasks: Seq<TaskView>, task: TaskView) -> Seq<TaskView> {
    match first_with_id(tasks, task.id) {
        Some(i) => tasks.update(i, task),
        None => tasks,
    }
}

/// The completed ones among the tasks.
pub open spec fn completed_tasks(tasks: Seq<TaskView>) -> Seq<TaskView> {
    tasks.filter(|task: TaskView| task.status == TeamTaskStatus::Completed)
}

/// The line that shows `task`.
pub open spec fn task_line(task: TaskView) -> OverlayLineView {
    OverlayLineView::Task {
        status: task.status,
        title: task.title,
        id: task.id,
        assigned_to: task.assigned_to,
    }
}

/// The overview of a team's tasks: the team's name and an empty line, then
/// either the remark that there are no tasks, or a line for each task in
/// order, an empty line and the count of the completed tasks.
pub open spec fn overlay_of(state: TeamStateView) -> Seq<OverlayLineView> {
    let name = match state.team_name {
        Some(name) => name,
        None => "<no team>"@,
    };
    let head = seq![OverlayLineView::Team { name }, OverlayLineView::Blank];
    if state.tasks.len() == 0 {
        head.push(OverlayLineView::NoTasks)
    } else {
        head + Seq::new(state.tasks.len(), |i: int| task_line(state.tasks[i])) + seq![
            OverlayLineView::Blank,
            OverlayLineView::Summary {
                done: completed_tasks(state.tasks).len(),
                total: state.tasks.len(),
            },
        ]
    }
}

/// The first member with the handle is the only one that
/// `first_running_as` can name.
proof fn lemma_first_running_as_is(members: Seq<MemberInfoView>, thread_id: ThreadId, i: int)
    requires
        is_first_running_as(members, thread_id, i),
    ensures
        first_running_as(members, thread_id) == Some(i),
{
    let chosen = choose|c: int| is_first_running_as(members, thread_id, c);
    assert(is_first_running_as(members, thread_id, chosen));
    if chosen < i {
        assert(members[chosen].thread_id != thread_id);
    } else if i < chosen {
        assert(members[i].thread_id != thread_id);
    }
}

/// Where no member has the handle, `first_running_as` names none.
proof fn lemma_first_running_as_none(members: Seq<MemberInfoView>, thread_id: ThreadId)
    requires
        forall|j: int| 0 <= j < members.len() ==> (#[trigger] members[j]).thread_id != thread_id,
    ensures
        first_running_as(members, thread_id) is None,
{
    if exists|i: int| is_first_running_as(members, thread_id, i) {
        let i = choose|i: int| is_first_running_as(members, thread_id, i);
        assert(members[i].thread_id == thread_id);
    }
}

impl Default for TeamState {
    fn default() -> (state: Self)
        ensures
            state@ == (TeamStateView {
                team_name: None,
                leader_thread_id: None,
                members: Seq::empty(),
                tasks: Seq::empty(),
            }),
    {
        let state = TeamState {
            team_name: None,
            leader_thread_id: None,
            members: Vec::new(),
            tasks: Vec::new(),
        };
        assert(state@.members =~= Seq::<MemberInfoView>::empty());
        assert(state@.tasks =~= Seq::<TaskView>::empty());
        state
    }
}

impl TeamState {
    /// A team was created: it is the team that is observed from now on.
    pub fn on_team_created(&mut self, ev: &TeamCreatedEvent)
        ensures
            final(self)@ == (TeamStateView {
                team_name: Some(ev.team_name@),
                leader_thread_id: Some(ev.leader_thread_id),
                ..old(self)@
            }),
    {
        self.team_name = Some(ev.team_name.clone());
        self.leader_thread_id = Some(ev.leader_thread_id);
    }

    /// A member joined: it takes the place of the first member with its
    /// handle, or comes last where no member has its handle.
    pub fn on_member_added(&mut self, ev: &TeamMemberEvent)
        ensures
            final(self)@ == (TeamStateView {
                members: members_joined(old(self)@.members, ev.member@),
                ..old(self)@
            }),
    {
        let ghost before = self@.members;
        let mut i: usize = 0;
        while i < self.members.len()
            invariant
                i <= self.members@.len(),
                *self == *old(self),
                before == self@.members,
                forall|j: int| 0 <= j < i ==> (#[trigger] self@.members[j]).thread_id != ev.member.thread_id,
            decreases self.members@.len() - i,
        {
            if self.members[i].thread_id == ev.member.thread_id {
                proof {
                    lemma_first_running_as_is(self@.members, ev.member.thread_id, i as int);
                }
                self.members[i] = ev.member.clone();
                assert(self@.members =~= before.update(i as int, ev.member@));
                return;
            }
            i += 1;
        }
        proof {
            lemma_first_running_as_none(self@.members, ev.member.thread_id);
        }
        self.members.push(ev.member.clone());
        assert(self@.members =~= before.push(ev.member@));
    }

    /// A member left: every member with its handle is gone.
    pub fn on_member_removed(&mut self, ev: &TeamMemberEvent)
        ensures
            final(self)@ == (TeamStateView {
                members: members_left(old(self)@.members, ev.member.thread_id),
                ..old(self)@
            }),
    {
        let ghost before = self@.members;
        let mut kept: Vec<TeamMemberInfo> = Vec::new();
        let mut i: usize = 0;
        assert(before.take(0) =~= Seq::<MemberInfoView>::empty());
        assert(member_info_views(kept@) =~= members_left(before.take(0), ev.member.thread_id)) by {
            reveal(Seq::filter);
        }
        while i < self.members.len()
            invariant
                i <= self.members@.len(),
                *self == *old(self),
                before == self@.members,
                member_info_views(kept@) == members_left(before.take(i as int), ev.member.thread_id),
            decreases self.members@.len() - i,
        {
            proof {
                before.take(i as int).lemma_filter_push(
                    before[i as int],
                    |member: MemberInfoView| member.thread_id != ev.member.thread_id,
                );
                assert(before.take(i as int).push(before[i as int]) =~= before.take(i + 1));
            }
            if self.members[i].thread_id != ev.member.thread_id {
                let ghost earlier = member_info_views(kept@);
                kept.push(self.members[i].clone());
                assert(member_info_views(kept@) =~= earlier.push(before[i as int]));
            }
            i += 1;
        }
        assert(before.take(i as int) =~= before);
        self.members = kept;
    }

    /// A task was created: it comes last.
    pub fn on_task_created(&mut self, ev: &TeamTaskEvent)
        ensures
            final(self)@ == (TeamStateView { tasks: old(self)@.tasks.push(ev.task@), ..old(self)@ }),
    {
        self.tasks.push(ev.task.clone());
        assert(self@.tasks =~= old(self)@.tasks.push(ev.task@));
    }

    /// A task changed: it takes the place of the first task with its id.
    /// Nothing changes where no task has its id.
    pub fn on_task_updated(&mut self, ev: &TeamTaskEvent)
        ensures
            final(self)@ == (TeamStateView {
                tasks: tasks_updated(old(self)@.tasks, ev.task@),
                ..old(self)@
            }),
    {
        let ghost before = self@.tasks;
        let mut i: usize = 0;
        while i < self.tasks.len()
            invariant
                i <= self.tasks@.len(),
                *self == *old(self),
                before == self@.tasks,
                forall|j: int| 0 <= j < i ==> (#[trigger] self@.tasks[j]).id != ev.task@.id,
            decreases self.tasks@.len() - i,
        {
            if self.tasks[i].id == ev.task.id {
                proof {
                    lemma_first_with_id_is(self@.tasks, ev.task@.id, i as int);
                }
                self.tasks[i] = ev.task.clone();
                assert(self@.tasks =~= before.update(i as int, ev.task@));
                return;
            }
            i += 1;
        }
        proof {
            lemma_first_with_id_none(self@.tasks, ev.task@.id);
        }
    }

    /// The team was discarded: nothing is known any more.
    pub fn on_cleanup(&mut self)
        ensures
            final(self)@ == (TeamStateView {
                team_name: None,
                leader_thread_id: None,
                members: Seq::empty(),
                tasks: Seq::empty(),
            }),
    {
        self.team_name = None;
        self.leader_thread_id = None;
        self.members = Vec::new();
        self.tasks = Vec::new();
        assert(self@.members =~= Seq::<MemberInfoView>::empty());
        assert(self@.tasks =~= Seq::<TaskView>::empty());
    }

    /// The overview of the team's tasks, line by line.
    pub fn task_overlay_lines(&self) -> (lines: Vec<OverlayLine>)
        ensures
            line_views(lines@) == overlay_of(self@),
    {
        let mut lines: Vec<OverlayLine> = Vec::new();
        let name = match &self.team_name {
            Some(name) => name.clone(),
            None => "<no team>".to_owned(),
        };
        lines.push(OverlayLine::Team { name });
        lines.push(OverlayLine::Blank);
        let ghost head = line_views(lines@);
        if self.tasks.len() == 0 {
            lines.push(OverlayLine::NoTasks);
            assert(line_views(lines@) =~= overlay_of(self@));
            return lines;
        }
        let ghost tasks = self@.tasks;
        let mut done: usize = 0;
        let mut i: usize = 0;
        assert(tasks.take(0) =~= Seq::<TaskView>::empty());
        assert(completed_tasks(tasks.take(0)).len() == 0) by {
            reveal(Seq::filter);
        }
        while i < self.tasks.len()
            invariant
                i <= self.tasks@.len(),
                tasks == self@.tasks,
                lines@.len() == 2 + i,
                head.len() == 2,
                forall|j: int| 0 <= j < 2 ==> (#[trigger] lines@[j])@ == head[j],
                forall|j: int| 0 <= j < i ==> (#[trigger] lines@[2 + j])@ == task_line(tasks[j]),
                done == completed_tasks(tasks.take(i as int)).len(),
                done <= i,
            decreases self.tasks@.len() - i,
        {
            proof {
                tasks.take(i as int).lemma_filter_push(
                    tasks[i as int],
                    |task: TaskView| task.status == TeamTaskStatus::Completed,
                );
                assert(tasks.take(i as int).push(tasks[i as int]) =~= tasks.take(i + 1));
            }
            let task = &self.tasks[i];
            match task.status {
                TeamTaskStatus::Completed => {
                    done += 1;
                },
                _ => {},
            }
            lines.push(
                OverlayLine::Task {
                    status: task.status,
                    title: task.title.clone(),
                    id: task.id.clone(),
                    assigned_to: task.assigned_to.clone(),
                },
            );
            i += 1;
        }
        assert(tasks.take(i as int) =~= tasks);
        lines.push(OverlayLine::Blank);
        lines.push(OverlayLine::Summary { done, total: self.tasks.len() });
        proof {
            let shown = line_views(lines@);
            let wished = overlay_of(self@);
            assert(shown.len() == wished.len());
            assert forall|j: int| 0 <= j < shown.len() implies shown[j] == wished[j] by {
                if j < 2 {
                    assert(lines@[j]@ == head[j]);
                } else if j < 2 + tasks.len() {
                    assert(lines@[2 + (j - 2)]@ == task_line(tasks[j - 2]));
                }
            }
            assert(shown =~= wished);
        }
        lines
    }

    /// The handles of the members, in order.
    pub fn teammate_thread_ids(&self) -> (handles: Vec<ThreadId>)
        ensures
            handles@ == Seq::new(self@.members.len(), |i: int| self@.members[i].thread_id),
    {
        let mut handles: Vec<ThreadId> = Vec::new();
        let mut i: usize = 0;
        while i < self.members.len()
            invariant
                i <= self.members@.len(),
                handles@.len() == i,
                forall|j: int| 0 <= j < i ==> handles@[j] == (#[trigger] self.members@[j]).thread_id,
            decreases self.members@.len() - i,
        {
            handles.push(self.members[i].thread_id);
            i += 1;
        }
        assert(handles@ =~= Seq::new(self@.members.len(), |i: int| self@.members[i].thread_id));
        handles
    }

    /// Whether a team is observed.
    pub fn is_active(&self) -> (active: bool)
        ensures
            active == self@.team_name.is_some(),
    {
        self.team_name.is_some()
    }
}

} // verus!
