//! The work queues of all teams below one root directory.

use crate::name_table::NameTable;
use crate::paths::{join_path, path_join};
use crate::task::{
    after_assign, after_claim, after_complete, claim_result, first_with_id, lemma_first_with_id_none,
    lemma_next_claimable_none, optional_task, task_views, TaskListData, TaskView, TeamTaskInfo,
};
use vstd::prelude::*;

verus! {

/// The queue that `queues` holds for `team`: a team without a queue
/// document has the empty queue.
pub open spec fn queue_of(queues: Map<Seq<char>, Seq<TaskView>>, team: Seq<char>) -> Seq<TaskView> {
    if queues.contains_key(team) {
        queues[team]
    } else {
        Seq::empty()
    }
}

/// The queues once `team` has one: its own where it had one, an empty one
/// else.
pub open spec fn queues_after_init(queues: Map<Seq<char>, Seq<TaskView>>, team: Seq<char>) -> Map<
    Seq<char>,
    Seq<TaskView>,
> {
    if queues.contains_key(team) {
        queues
    } else {
        queues.insert(team, Seq::empty())
    }
}

/// The queues after `task` was appended to the queue of `team`.
pub open spec fn queues_after_create(
    queues: Map<Seq<char>, Seq<TaskView>>,
    team: Seq<char>,
    task: TaskView,
) -> Map<Seq<char>, Seq<TaskView>> {
    queues.insert(team, queue_of(queues, team).push(task))
}

/// The queues after `claimant` asked for the next task of `team`.
pub open spec fn queues_after_claim(
    queues: Map<Seq<char>, Seq<TaskView>>,
    team: Seq<char>,
    claimant: Seq<char>,
) -> Map<Seq<char>, Seq<TaskView>> {
    if claim_result(queue_of(queues, team), claimant) is Some {
        queues.insert(team, after_claim(queue_of(queues, team), claimant))
    } else {
        queues
    }
}

/// The queues after the task `id` of `team` was completed.
pub open spec fn queues_after_complete(
    queues: Map<Seq<char>, Seq<TaskView>>,
    team: Seq<char>,
    id: Seq<char>,
) -> Map<Seq<char>, Seq<TaskView>> {
    if first_with_id(queue_of(queues, team), id) is Some {
        queues.insert(team, after_complete(queue_of(queues, team), id))
    } else {
        queues
    }
}

/// The queues after the task `id` of `team` was handed to `assignee`.
pub open spec fn queues_after_assign(
    queues: Map<Seq<char>, Seq<TaskView>>,
    team: Seq<char>,
    id: Seq<char>,
    assignee: Seq<char>,
) -> Map<Seq<char>, Seq<TaskView>> {
    if first_with_id(queue_of(queues, team), id) is Some {
        queues.insert(team, after_assign(queue_of(queues, team), id, assignee))
    } else {
        queues
    }
}

/// The work queues of the teams whose documents lie below one root
/// directory.
///
/// The view maps each team that has a queue document to its queue.
pub struct TaskList {
    tasks_root: String,
    queues: NameTable<TaskListData>,
}

impl View for TaskList {
    type V = Map<Seq<char>, Seq<TaskView>>;

    closed spec fn view(&self) -> Map<Seq<char>, Seq<TaskView>> {
        Map::new(
            |team: Seq<char>| self.queues@.contains_key(team),
            |team: Seq<char>| self.queues@[team]@,
        )
    }
}

impl TaskList {
    /// The root directory below which the queue documents lie.
    pub closed spec fn root(&self) -> Seq<char> {
        self.tasks_root@
    }

    /// The queues below `tasks_root`, none of which exists yet.
    pub fn new(tasks_root: String) -> (list: Self)
        ensures
            list.root() == tasks_root@,
            list@ == Map::<Seq<char>, Seq<TaskView>>::empty(),
    {
        let list = TaskList { tasks_root, queues: NameTable::new() };
        assert(list@ =~= Map::<Seq<char>, Seq<TaskView>>::empty());
        list
    }

    /// The directory of the team's queue.
    pub fn team_dir(&self, team_name: &str) -> (dir: String)
        ensures
            dir@ == path_join(self.root(), team_name@),
    {
        join_path(self.tasks_root.as_str(), team_name)
    }

    /// The path of the team's queue document, `tasks.json` in its directory.
    pub fn tasks_path(&self, team_name: &str) -> (path: String)
        ensures
            path@ == path_join(path_join(self.root(), team_name@), "tasks.json"@),
    {
        let dir = self.team_dir(team_name);
        join_path(dir.as_str(), "tasks.json")
    }

    /// Whether the team has a queue document.
    pub fn has_queue(&self, team_name: &str) -> (present: bool)
        ensures
            present == self@.contains_key(team_name@),
    {
        self.queues.contains_name(team_name)
    }

    /// Gives the team an empty queue unless it has a queue already.
    pub fn init(&mut self, team_name: &str)
        ensures
            final(self).root() == old(self).root(),
            final(self)@ == queues_after_init(old(self)@, team_name@),
    {
        if !self.queues.contains_name(team_name) {
            self.queues.put(team_name, TaskListData::default());
            assert(self@ =~= old(self)@.insert(team_name@, Seq::empty()));
        }
    }

    /// The team's queue; the empty queue where the team has none.
    pub fn load(&self, team_name: &str) -> (data: TaskListData)
        ensures
            data@ == queue_of(self@, team_name@),
    {
        match self.queues.get(team_name) {
            Some(data) => data.clone(),
            None => TaskListData::default(),
        }
    }

    /// Makes `data` the team's queue.
    pub fn save(&mut self, team_name: &str, data: &TaskListData)
        ensures
            final(self).root() == old(self).root(),
            final(self)@ == old(self)@.insert(team_name@, data@),
    {
        self.queues.put(team_name, data.clone());
        assert(self@ =~= old(self)@.insert(team_name@, data@));
    }

    /// Appends `task` to the team's queue, which comes to exist thereby.
    pub fn create_task(&mut self, team_name: &str, task: TeamTaskInfo)
        ensures
            final(self).root() == old(self).root(),
            final(self)@ == queues_after_create(old(self)@, team_name@, task@),
    {
        let mut data = match self.queues.take(team_name) {
            Some(data) => data,
            None => TaskListData::default(),
        };
        data.push(task);
        self.queues.put(team_name, data);
        assert(self@ =~= old(self)@.insert(
            team_name@,
            queue_of(old(self)@, team_name@).push(task@),
        ));
    }

    /// Hands the team's first claimable task, in creation order, to
    /// `teammate_name` and returns it as it then stands: in progress and
    /// assigned to the teammate. A task is claimable when it is pending,
    /// unassigned, and each of its dependencies is the id of a completed
    /// task. Where none is claimable, nothing is returned and nothing changes.
    pub fn accept_next_task(&mut self, team_name: &str, teammate_name: &str) -> (accepted: Option<
        TeamTaskInfo,
    >)
        ensures
            final(self).root() == old(self).root(),
            optional_task(accepted) == claim_result(
                queue_of(old(self)@, team_name@),
                teammate_name@,
            ),
            final(self)@ == queues_after_claim(old(self)@, team_name@, teammate_name@),
    {
        match self.queues.take(team_name) {
            Some(mut data) => {
                let accepted = data.accept_next(teammate_name);
                self.queues.put(team_name, data);
                proof {
                    let queue = queue_of(old(self)@, team_name@);
                    if accepted is Some {
                        assert(self@ =~= old(self)@.insert(
                            team_name@,
                            after_claim(queue, teammate_name@),
                        ));
                    } else {
                        assert(self@ =~= old(self)@);
                    }
                }
                accepted
            },
            None => {
                proof {
                    lemma_next_claimable_none(Seq::<TaskView>::empty());
                    assert(self@ =~= old(self)@);
                }
                None
            },
        }
    }

    /// Completes the team's first task with id `task_id`, whatever its status
    /// was, and says whether the team has such a task.
    pub fn complete_task(&mut self, team_name: &str, task_id: &str) -> (known: bool)
        ensures
            final(self).root() == old(self).root(),
            known == first_with_id(queue_of(old(self)@, team_name@), task_id@).is_some(),
            final(self)@ == queues_after_complete(old(self)@, team_name@, task_id@),
    {
        match self.queues.take(team_name) {
            Some(mut data) => {
                let known = data.complete(task_id);
                self.queues.put(team_name, data);
                proof {
                    let queue = queue_of(old(self)@, team_name@);
                    if known {
                        assert(self@ =~= old(self)@.insert(
                            team_name@,
                            after_complete(queue, task_id@),
                        ));
                    } else {
                        assert(self@ =~= old(self)@);
                    }
                }
                known
            },
            None => {
                proof {
                    lemma_first_with_id_none(Seq::<TaskView>::empty(), task_id@);
                    assert(self@ =~= old(self)@);
                }
                false
            },
        }
    }

    /// Hands the team's first task with id `task_id` to `teammate_name`,
    /// whoever held it before, and says whether the team has such a task. A
    /// pending task starts; a task in progress or completed keeps its status.
    pub fn assign_task(
        &mut self,
        team_name: &str,
        task_id: &str,
        teammate_name: &str,
    ) -> (known: bool)
        ensures
            final(self).root() == old(self).root(),
            known == first_with_id(queue_of(old(self)@, team_name@), task_id@).is_some(),
            final(self)@ == queues_after_assign(old(self)@, team_name@, task_id@, teammate_name@),
    {
        match self.queues.take(team_name) {
            Some(mut data) => {
                let known = data.assign(task_id, teammate_name);
                self.queues.put(team_name, data);
                proof {
                    let queue = queue_of(old(self)@, team_name@);
                    if known {
                        assert(self@ =~= old(self)@.insert(
                            team_name@,
                            after_assign(queue, task_id@, teammate_name@),
                        ));
                    } else {
                        assert(self@ =~= old(self)@);
                    }
                }
                known
            },
            None => {
                proof {
                    lemma_first_with_id_none(Seq::<TaskView>::empty(), task_id@);
                    assert(self@ =~= old(self)@);
                }
                false
            },
        }
    }

    /// The team's tasks in creation order; none where the team has no queue.
    pub fn get_all_tasks(&self, team_name: &str) -> (tasks: Vec<TeamTaskInfo>)
        ensures
            task_views(tasks@) == queue_of(self@, team_name@),
    {
        self.load(team_name).tasks
    }

    /// Discards the team's queue. Nothing changes where the team has none.
    pub fn cleanup(&mut self, team_name: &str)
        ensures
            final(self).root() == old(self).root(),
            final(self)@ == old(self)@.remove(team_name@),
    {
        let _ = self.queues.take(team_name);
        assert(self@ =~= old(self)@.remove(team_name@));
    }
}

} // verus!
