//! Tasks, and the work queue of one team: an ordered run of tasks from
//! which teammates claim the first one that is ready.

use crate::text::{optional_text, texts};
use vstd::hash_set::StringHashSet;
use vstd::prelude::*;

verus! {

/// Where a task stands. A task only ever moves forward: from `Pending` to
/// `InProgress` when it is claimed or assigned, and to `Completed` when it
/// is completed.
#[derive(Clone, Copy, Debug, PartialEq, Eq, Structural)]
pub enum TeamTaskStatus {
    Pending,
    InProgress,
    Completed,
}

/// One task of a team's work queue.
#[derive(Debug, PartialEq, Eq)]
pub struct TeamTaskInfo {
    pub id: String,
    pub title: String,
    pub status: TeamTaskStatus,
    pub assigned_to: Option<String>,
    /// Ids of the tasks that must be completed before this one can be claimed.
    pub depends_on: Vec<String>,
}

/// What a task is, as plain values.
pub struct TaskView {
    pub id: Seq<char>,
    pub title: Seq<char>,
    pub status: TeamTaskStatus,
    pub assigned_to: Option<Seq<char>>,
    pub depends_on: Seq<Seq<char>>,
}

impl View for TeamTaskInfo {
    type V = TaskView;

    open spec fn view(&self) -> TaskView {
        TaskView {
            id: self.id@,
            title: self.title@,
            status: self.status,
            assigned_to: optional_text(self.assigned_to),
            depends_on: texts(self.depends_on@),
        }
    }
}

impl Clone for TeamTaskInfo {
    fn clone(&self) -> (copy: Self)
        ensures
            copy@ == self@,
    {
        let copy = TeamTaskInfo {
            id: self.id.clone(),
            title: self.title.clone(),
            status: self.status,
            assigned_to: self.assigned_to.clone(),
            depends_on: self.depends_on.clone(),
        };
        assert(copy@.depends_on =~= self@.depends_on);
        copy
    }
}

/// The view of a task that may be absent.
pub open spec fn optional_task(task: Option<TeamTaskInfo>) -> Option<TaskView> {
    match task {
        Some(task) => Some(task@),
        None => None,
    }
}

/// The views of a run of tasks, in order.
pub open spec fn task_views(tasks: Seq<TeamTaskInfo>) -> Seq<TaskView> {
    Seq::new(tasks.len(), |i: int| tasks[i]@)
}

/// `task` carries `id` and is completed.
pub open spec fn completes(task: TaskView, id: Seq<char>) -> bool {
    task.id == id && task.status == TeamTaskStatus::Completed
}

/// Some task of the queue carries `id` and is completed.
pub open spec fn is_completed(tasks: Seq<TaskView>, id: Seq<char>) -> bool {
    exists|j: int| 0 <= j < tasks.len() && completes(#[trigger] tasks[j], id)
}

/// Every dependency of `task` is the id of a completed task of the queue.
pub open spec fn dependencies_met(tasks: Seq<TaskView>, task: TaskView) -> bool {
    forall|d: int|
        0 <= d < task.depends_on.len() ==> is_completed(tasks, #[trigger] task.depends_on[d])
}

/// The task at `i` can be claimed: it is pending, nobody holds it, and all
/// its dependencies are completed.
pub open spec fn claimable(tasks: Seq<TaskView>, i: int) -> bool {
    &&& 0 <= i < tasks.len()
    &&& tasks[i].status == TeamTaskStatus::Pending
    &&& tasks[i].assigned_to is None
    &&& dependencies_met(tasks, tasks[i])
}

/// `i` is the first claimable task in creation order.
pub open spec fn is_next_claimable(tasks: Seq<TaskView>, i: int) -> bool {
    claimable(tasks, i) && forall|j: int| 0 <= j < i ==> !claimable(tasks, j)
}

/// The first claimable task in creation order, if any task is claimable.
pub open spec fn next_claimable(tasks: Seq<TaskView>) -> Option<int> {
    if exists|i: int| is_next_claimable(tasks, i) {
        Some(choose|i: int| is_next_claimable(tasks, i))
    } else {
        None
    }
}

/// `task` once `claimant` has taken it.
pub open spec fn claimed(task: TaskView, claimant: Seq<char>) -> TaskView {
    TaskView { status: TeamTaskStatus::InProgress, assigned_to: Some(claimant), ..task }
}

/// The queue after `claimant` asked for the next task.
pub open spec fn after_claim(tasks: Seq<TaskView>, claimant: Seq<char>) -> Seq<TaskView> {
    match next_claimable(tasks) {
        Some(i) => tasks.update(i, claimed(tasks[i], claimant)),
        None => tasks,
    }
}

/// The task that `claimant` gets when asking for the next one.
pub open spec fn claim_result(tasks: Seq<TaskView>, claimant: Seq<char>) -> Option<TaskView> {
    match next_claimable(tasks) {
        Some(i) => Some(claimed(tasks[i], claimant)),
        None => None,
    }
}

/// `i` is the first task that carries `id`.
pub open spec fn is_first_with_id(tasks: Seq<TaskView>, id: Seq<char>, i: int) -> bool {
    &&& 0 <= i < tasks.len()
    &&& tasks[i].id == id
    &&& forall|j: int| 0 <= j < i ==> (#[trigger] tasks[j]).id != id
}

/// The first task that carries `id`, if any does.
pub open spec fn first_with_id(tasks: Seq<TaskView>, id: Seq<char>) -> Option<int> {
    if exists|i: int| is_first_with_id(tasks, id, i) {
        Some(choose|i: int| is_first_with_id(tasks, id, i))
    } else {
        None
    }
}

/// `task` once it is completed.
pub open spec fn completed(task: TaskView) -> TaskView {
    TaskView { status: TeamTaskStatus::Completed, ..task }
}

/// The queue after the task `id` was completed.
pub open spec fn after_complete(tasks: Seq<TaskView>, id: Seq<char>) -> Seq<TaskView> {
    match first_with_id(tasks, id) {
        Some(i) => tasks.update(i, completed(tasks[i])),
        None => tasks,
    }
}

/// `task` once it is handed to `assignee`: a pending task starts, any other
/// keeps its status.
pub open spec fn assigned(task: TaskView, assignee: Seq<char>) -> TaskView {
    TaskView {
        status: if task.status == TeamTaskStatus::Pending {
            TeamTaskStatus::InProgress
        } else {
            task.status
        },
        assigned_to: Some(assignee),
        ..task
    }
}

/// The queue after the task `id` was handed to `assignee`.
pub open spec fn after_assign(tasks: Seq<TaskView>, id: Seq<char>, assignee: Seq<char>) -> Seq<
    TaskView,
> {
    match first_with_id(tasks, id) {
        Some(i) => tasks.update(i, assigned(tasks[i], assignee)),
        None => tasks,
    }
}

/// Among the first `n + 1` tasks an id is completed where it is completed
/// among the first `n` or by the task at `n`.
proof fn lemma_completed_one_more(tasks: Seq<TaskView>, n: int, id: Seq<char>)
    requires
        0 <= n < tasks.len(),
    ensures
        is_completed(tasks.take(n + 1), id) <==> is_completed(tasks.take(n), id) || completes(
            tasks[n],
            id,
        ),
{
    let shorter = tasks.take(n);
    let longer = tasks.take(n + 1);
    if is_completed(shorter, id) {
        let j = choose|j: int| 0 <= j < shorter.len() && completes(#[trigger] shorter[j], id);
        assert(completes(longer[j], id));
    }
    if completes(tasks[n], id) {
        assert(completes(longer[n], id));
    }
    if is_completed(longer, id) {
        let j = choose|j: int| 0 <= j < longer.len() && completes(#[trigger] longer[j], id);
        if j < n {
            assert(completes(shorter[j], id));
        }
    }
}

/// The first claimable task is the only one that `next_claimable` can name.
pub proof fn lemma_next_claimable_is(tasks: Seq<TaskView>, i: int)
    requires
        is_next_claimable(tasks, i),
    ensures
        next_claimable(tasks) == Some(i),
{
    let chosen = choose|c: int| is_next_claimable(tasks, c);
    assert(is_next_claimable(tasks, chosen));
    if chosen < i {
        assert(!claimable(tasks, chosen));
    } else if i < chosen {
        assert(!claimable(tasks, i));
    }
}

/// Where no task is claimable, `next_claimable` names none.
pub proof fn lemma_next_claimable_none(tasks: Seq<TaskView>)
    requires
        forall|j: int| 0 <= j < tasks.len() ==> !claimable(tasks, j),
    ensures
        next_claimable(tasks) is None,
{
    if exists|i: int| is_next_claimable(tasks, i) {
        let i = choose|i: int| is_next_claimable(tasks, i);
        assert(claimable(tasks, i));
    }
}

/// The first task with the id is the only one that `first_with_id` can name.
pub proof fn lemma_first_with_id_is(tasks: Seq<TaskView>, id: Seq<char>, i: int)
    requires
        is_first_with_id(tasks, id, i),
    ensures
        first_with_id(tasks, id) == Some(i),
{
    let chosen = choose|c: int| is_first_with_id(tasks, id, c);
    assert(is_first_with_id(tasks, id, chosen));
    if chosen < i {
        assert(tasks[chosen].id != id);
    } else if i < chosen {
        assert(tasks[i].id != id);
    }
}

/// Where no task carries the id, `first_with_id` names none.
pub proof fn lemma_first_with_id_none(tasks: Seq<TaskView>, id: Seq<char>)
    requires
        forall|j: int| 0 <= j < tasks.len() ==> (#[trigger] tasks[j]).id != id,
    ensures
        first_with_id(tasks, id) is None,
{
    if exists|i: int| is_first_with_id(tasks, id, i) {
        let i = choose|i: int| is_first_with_id(tasks, id, i);
        assert(tasks[i].id == id);
    }
}

/// The work queue of one team, in creation order.
#[derive(Debug, PartialEq, Eq)]
pub struct TaskListData {
    pub tasks: Vec<TeamTaskInfo>,
}

impl View for TaskListData {
    type V = Seq<TaskView>;

    open spec fn view(&self) -> Seq<TaskView> {
        task_views(self.tasks@)
    }
}

impl Default for TaskListData {
    fn default() -> (data: Self)
        ensures
            data@ == Seq::<TaskView>::empty(),
    {
        let data = TaskListData { tasks: Vec::new() };
        assert(data@ =~= Seq::<TaskView>::empty());
        data
    }
}

impl Clone for TaskListData {
    fn clone(&self) -> (copy: Self)
        ensures
            copy@ == self@,
    {
        let mut tasks: Vec<TeamTaskInfo> = Vec::new();
        let mut i: usize = 0;
        while i < self.tasks.len()
            invariant
                i <= self.tasks@.len(),
                tasks@.len() == i,
                forall|j: int| 0 <= j < i ==> tasks@[j]@ == self.tasks@[j]@,
            decreases self.tasks@.len() - i,
        {
            tasks.push(self.tasks[i].clone());
            i += 1;
        }
        let copy = TaskListData { tasks };
        assert(copy@ =~= self@);
        copy
    }
}

impl TaskListData {
    /// Appends `task` at the end of the queue.
    pub fn push(&mut self, task: TeamTaskInfo)
        ensures
            final(self)@ == old(self)@.push(task@),
    {
        self.tasks.push(task);
        assert(self@ =~= old(self)@.push(task@));
    }

    /// The ids of the completed tasks.
    fn completed_ids(&self) -> (done: StringHashSet)
        ensures
            forall|id: Seq<char>| done@.contains(id) <==> is_completed(self@, id),
    {
        let mut done = StringHashSet::new();
        let mut i: usize = 0;
        while i < self.tasks.len()
            invariant
                i <= self.tasks@.len(),
                forall|id: Seq<char>| done@.contains(id) <==> is_completed(self@.take(i as int), id),
            decreases self.tasks@.len() - i,
        {
            match self.tasks[i].status {
                TeamTaskStatus::Completed => {
                    done.insert(self.tasks[i].id.clone());
                },
                _ => {},
            }
            proof {
                assert forall|id: Seq<char>|
                    done@.contains(id) <==> is_completed(self@.take(i + 1), id) by {
                    lemma_completed_one_more(self@, i as int, id);
                }
            }
            i += 1;
        }
        assert(self@.take(i as int) =~= self@);
        done
    }

    /// Whether the task at `i` can be claimed, given the ids of the completed tasks.
    fn claimable_at(&self, i: usize, done: &StringHashSet) -> (ready: bool)
        requires
            i < self.tasks@.len(),
            forall|id: Seq<char>| done@.contains(id) <==> is_completed(self@, id),
        ensures
            ready == claimable(self@, i as int),
    {
        let task = &self.tasks[i];
        match task.status {
            TeamTaskStatus::Pending => {},
            _ => {
                return false;
            },
        }
        if task.assigned_to.is_some() {
            return false;
        }
        let mut d: usize = 0;
        while d < task.depends_on.len()
            invariant
                d <= task.depends_on@.len(),
                task@ == self@[i as int],
                forall|id: Seq<char>| done@.contains(id) <==> is_completed(self@, id),
                forall|e: int| 0 <= e < d ==> is_completed(self@, #[trigger] task@.depends_on[e]),
            decreases task.depends_on@.len() - d,
        {
            if !done.contains(task.depends_on[d].as_str()) {
                assert(!is_completed(self@, task@.depends_on[d as int]));
                return false;
            }
            d += 1;
        }
        true
    }

    /// Hands the first claimable task, in creation order, to `teammate_name`:
    /// the task starts, is assigned to the teammate, and a copy of it as it
    /// then stands is returned. Where no task is claimable nothing changes.
    pub fn accept_next(&mut self, teammate_name: &str) -> (accepted: Option<TeamTaskInfo>)
        ensures
            final(self)@ == after_claim(old(self)@, teammate_name@),
            optional_task(accepted) == claim_result(old(self)@, teammate_name@),
    {
        let done = self.completed_ids();
        let mut i: usize = 0;
        while i < self.tasks.len()
            invariant
                i <= self.tasks@.len(),
                *self == *old(self),
                forall|id: Seq<char>| done@.contains(id) <==> is_completed(self@, id),
                forall|j: int| 0 <= j < i ==> !claimable(self@, j),
            decreases self.tasks@.len() - i,
        {
            if self.claimable_at(i, &done) {
                proof {
                    lemma_next_claimable_is(self@, i as int);
                }
                self.tasks[i].status = TeamTaskStatus::InProgress;
                self.tasks[i].assigned_to = Some(teammate_name.to_owned());
                let task = self.tasks[i].clone();
                assert(self@ =~= old(self)@.update(
                    i as int,
                    claimed(old(self)@[i as int], teammate_name@),
                ));
                return Some(task);
            }
            i += 1;
        }
        proof {
            lemma_next_claimable_none(self@);
        }
        None
    }

    /// Where the first task with id `task_id` stands, if there is one.
    fn position_of(&self, task_id: &str) -> (found: Option<usize>)
        ensures
            match found {
                Some(i) => first_with_id(self@, task_id@) == Some(i as int),
                None => first_with_id(self@, task_id@) is None,
            },
    {
        let wanted = task_id.to_owned();
        let mut i: usize = 0;
        while i < self.tasks.len()
            invariant
                i <= self.tasks@.len(),
                wanted@ == task_id@,
                forall|j: int| 0 <= j < i ==> (#[trigger] self@[j]).id != task_id@,
            decreases self.tasks@.len() - i,
        {
            if self.tasks[i].id == wanted {
                proof {
                    lemma_first_with_id_is(self@, task_id@, i as int);
                }
                return Some(i);
            }
            i += 1;
        }
        proof {
            lemma_first_with_id_none(self@, task_id@);
        }
        None
    }

    /// Completes the first task with id `task_id`, whatever its status was,
    /// and says whether there was such a task.
    pub fn complete(&mut self, task_id: &str) -> (known: bool)
        ensures
            final(self)@ == after_complete(old(self)@, task_id@),
            known == first_with_id(old(self)@, task_id@).is_some(),
    {
        match self.position_of(task_id) {
            Some(i) => {
                self.tasks[i].status = TeamTaskStatus::Completed;
                assert(self@ =~= old(self)@.update(i as int, completed(old(self)@[i as int])));
                true
            },
            None => false,
        }
    }

    /// Hands the first task with id `task_id` to `teammate_name`, whoever held
    /// it before, and says whether there was such a task. A pending task
    /// starts; a task in progress or completed keeps its status.
    pub fn assign(&mut self, task_id: &str, teammate_name: &str) -> (known: bool)
        ensures
            final(self)@ == after_assign(old(self)@, task_id@, teammate_name@),
            known == first_with_id(old(self)@, task_id@).is_some(),
    {
        match self.position_of(task_id) {
            Some(i) => {
                self.tasks[i].assigned_to = Some(teammate_name.to_owned());
                match self.tasks[i].status {
                    TeamTaskStatus::Pending => {
                        self.tasks[i].status = TeamTaskStatus::InProgress;
                    },
                    _ => {},
                }
                assert(self@ =~= old(self)@.update(
                    i as int,
                    assigned(old(self)@[i as int], teammate_name@),
                ));
                true
            },
            None => false,
        }
    }
}

} // verus!
