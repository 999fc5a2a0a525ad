//! What holds of a work queue over any run of claims and completions.

use crate::task::{
    after_assign, after_claim, after_complete, claimable, claimed, completed, completes,
    dependencies_met, first_with_id, is_completed, is_first_with_id, is_next_claimable,
    lemma_first_with_id_is, next_claimable, TaskView, TeamTaskStatus,
};
use crate::task_list::{queue_of, queues_after_complete};
use vstd::prelude::*;
use vstd::set_lib::{lemma_int_range, lemma_len_subset, set_int_range};

verus! {

/// The indexes of the claimable tasks.
pub open spec fn claimable_set(tasks: Seq<TaskView>) -> Set<int> {
    Set::new(|i: int| claimable(tasks, i))
}

/// The indexes of the tasks in progress.
pub open spec fn in_progress_set(tasks: Seq<TaskView>) -> Set<int> {
    Set::new(|i: int| 0 <= i < tasks.len() && tasks[i].status == TeamTaskStatus::InProgress)
}

/// The queue after the claimants asked for the next task one after the
/// other, the first of `claimants` first.
pub open spec fn after_claims(tasks: Seq<TaskView>, claimants: Seq<Seq<char>>) -> Seq<TaskView>
    decreases claimants.len(),
{
    if claimants.len() == 0 {
        tasks
    } else {
        after_claim(after_claims(tasks, claimants.drop_last()), claimants.last())
    }
}

/// The index of the task that the claimant at `k` gets, if it gets one.
pub open spec fn granted(tasks: Seq<TaskView>, claimants: Seq<Seq<char>>, k: int) -> Option<int> {
    next_claimable(after_claims(tasks, claimants.take(k)))
}

/// The smaller of two numbers.
pub open spec fn smaller(a: int, b: int) -> int {
    if a <= b {
        a
    } else {
        b
    }
}

/// What `next_claimable` names is the first claimable task, and it names
/// none only where no task is claimable.
pub proof fn lemma_next_claimable(tasks: Seq<TaskView>)
    ensures
        match next_claimable(tasks) {
            Some(i) => is_next_claimable(tasks, i),
            None => forall|j: int| !claimable(tasks, j),
        },
{
    if next_claimable(tasks) is None {
        assert forall|j: int| !claimable(tasks, j) by {
            if claimable(tasks, j) {
                lemma_first_claimable_exists(tasks, j);
            }
        }
    }
}

/// Below any claimable task there is a first one.
proof fn lemma_first_claimable_exists(tasks: Seq<TaskView>, j: int)
    requires
        claimable(tasks, j),
    ensures
        exists|i: int| is_next_claimable(tasks, i),
    decreases j,
{
    if forall|k: int| 0 <= k < j ==> !claimable(tasks, k) {
        assert(is_next_claimable(tasks, j));
    } else {
        let k = choose|k: int| 0 <= k < j && claimable(tasks, k);
        lemma_first_claimable_exists(tasks, k);
    }
}

/// The claimable tasks are finitely many, no more than the queue is long.
pub proof fn lemma_claimable_finite(tasks: Seq<TaskView>)
    ensures
        claimable_set(tasks).finite(),
        claimable_set(tasks).len() <= tasks.len(),
        in_progress_set(tasks).finite(),
{
    lemma_int_range(0, tasks.len() as int);
    let all = set_int_range(0, tasks.len() as int);
    assert(claimable_set(tasks).subset_of(all));
    assert(in_progress_set(tasks).subset_of(all));
    lemma_len_subset(claimable_set(tasks), all);
    lemma_len_subset(in_progress_set(tasks), all);
}

/// One claim: the claimed task starts and leaves the claimable ones, every
/// other task stays as it is, and no task becomes completed or claimable.
pub proof fn lemma_claim_step(tasks: Seq<TaskView>, claimant: Seq<char>)
    ensures
        after_claim(tasks, claimant).len() == tasks.len(),
        forall|id: Seq<char>|
            is_completed(after_claim(tasks, claimant), id) == is_completed(tasks, id),
        match next_claimable(tasks) {
            Some(i) => {
                &&& claimable(tasks, i)
                &&& after_claim(tasks, claimant) == tasks.update(i, claimed(tasks[i], claimant))
                &&& claimable_set(after_claim(tasks, claimant)) == claimable_set(tasks).remove(i)
                &&& !in_progress_set(tasks).contains(i)
                &&& in_progress_set(after_claim(tasks, claimant)) == in_progress_set(tasks).insert(i)
            },
            None => after_claim(tasks, claimant) == tasks && claimable_set(tasks) == Set::<int>::empty(),
        },
{
    lemma_next_claimable(tasks);
    let then = after_claim(tasks, claimant);
    match next_claimable(tasks) {
        Some(i) => {
            assert forall|id: Seq<char>| is_completed(then, id) == is_completed(tasks, id) by {
                if is_completed(tasks, id) {
                    let j = choose|j: int| 0 <= j < tasks.len() && completes(#[trigger] tasks[j], id);
                    assert(completes(then[j], id));
                }
                if is_completed(then, id) {
                    let j = choose|j: int| 0 <= j < then.len() && completes(#[trigger] then[j], id);
                    assert(completes(tasks[j], id));
                }
            }
            assert forall|j: int| claimable(then, j) == (claimable(tasks, j) && j != i) by {
                if 0 <= j < tasks.len() && j != i {
                    assert(then[j] == tasks[j]);
                    assert(dependencies_met(then, then[j]) == dependencies_met(tasks, tasks[j]));
                }
            }
            assert(claimable_set(then) =~= claimable_set(tasks).remove(i));
            assert(in_progress_set(then) =~= in_progress_set(tasks).insert(i));
        },
        None => {
            assert(claimable_set(tasks) =~= Set::<int>::empty());
        },
    }
}

/// The state of a queue after any run of claims, in terms of the queue
/// before: the invariant from which the laws below follow.
proof fn lemma_claims_invariant(tasks: Seq<TaskView>, claimants: Seq<Seq<char>>)
    ensures
        ({
            let then = after_claims(tasks, claimants);
            let n = claimable_set(tasks).len() as int;
            let m = claimants.len() as int;
            &&& then.len() == tasks.len()
            &&& forall|id: Seq<char>| is_completed(then, id) == is_completed(tasks, id)
            &&& claimable_set(then).subset_of(claimable_set(tasks))
            &&& claimable_set(then).len() == n - smaller(n, m)
            &&& in_progress_set(then).len() == in_progress_set(tasks).len() + smaller(n, m)
            &&& forall|k: int|
                0 <= k < m ==> ((#[trigger] granted(tasks, claimants, k)) is Some <==> k < n)
            &&& forall|k: int|
                0 <= k < m ==> (#[trigger] granted(tasks, claimants, k) matches Some(i) ==> {
                    &&& claimable(tasks, i)
                    &&& !claimable(then, i)
                    &&& then[i] == claimed(tasks[i], claimants[k])
                })
            &&& forall|i: int|
                0 <= i < tasks.len() && (forall|k: int|
                    0 <= k < m ==> #[trigger] granted(tasks, claimants, k) != Some(i)) ==> #[trigger] then[i]
                    == tasks[i]
        }),
    decreases claimants.len(),
{
    let n = claimable_set(tasks).len() as int;
    let m = claimants.len() as int;
    lemma_claimable_finite(tasks);
    if m == 0 {
        assert(forall|k: int| 0 <= k < m ==> granted(tasks, claimants, k) is None);
    } else {
        let earlier = claimants.drop_last();
        let last = claimants.last();
        let before = after_claims(tasks, earlier);
        let then = after_claims(tasks, claimants);
        lemma_claims_invariant(tasks, earlier);
        lemma_claim_step(before, last);
        lemma_claimable_finite(before);
        lemma_claimable_finite(then);
        assert forall|k: int| 0 <= k < m - 1 implies #[trigger] granted(tasks, claimants, k)
            == granted(tasks, earlier, k) by {
            assert(claimants.take(k) =~= earlier.take(k));
        }
        assert(claimants.take(m - 1) =~= earlier);
        assert(granted(tasks, claimants, m - 1) == next_claimable(before));
        match next_claimable(before) {
            Some(i) => {
                assert(claimable_set(before).contains(i));
                assert(claimable_set(tasks).contains(i));
                assert(m - 1 < n);
                assert forall|k: int| 0 <= k < m - 1 implies #[trigger] granted(
                    tasks,
                    claimants,
                    k,
                ) != Some(i) by {
                    assert(granted(tasks, earlier, k) != Some(i));
                }
                assert(before[i] == tasks[i]);
                assert(!in_progress_set(before).contains(i));
                assert forall|j: int|
                    0 <= j < tasks.len() && (forall|k: int|
                        0 <= k < m ==> #[trigger] granted(tasks, claimants, k) != Some(
                            j,
                        )) implies #[trigger] then[j] == tasks[j] by {
                    assert(granted(tasks, claimants, m - 1) != Some(j));
                    assert forall|k: int| 0 <= k < m - 1 implies #[trigger] granted(
                        tasks,
                        earlier,
                        k,
                    ) != Some(j) by {
                        assert(granted(tasks, claimants, k) != Some(j));
                    }
                    assert(before[j] == tasks[j]);
                }
            },
            None => {
                assert(claimable_set(before).len() == 0);
                assert(m - 1 >= n);
                assert forall|j: int|
                    0 <= j < tasks.len() && (forall|k: int|
                        0 <= k < m ==> #[trigger] granted(tasks, claimants, k) != Some(
                            j,
                        )) implies #[trigger] then[j] == tasks[j] by {
                    assert forall|k: int| 0 <= k < m - 1 implies #[trigger] granted(
                        tasks,
                        earlier,
                        k,
                    ) != Some(j) by {
                        assert(granted(tasks, claimants, k) != Some(j));
                    }
                    assert(before[j] == tasks[j]);
                }
            },
        }
    }
}

/// At most once: when any number of claimants ask for the next task one
/// after the other, those who ask while a claimable task is left each get
/// one and the others get none, so that as many tasks start as there are
/// claimable tasks or claimants, whichever is fewer; no task goes to two
/// claimants; each task that was handed out is in progress and assigned to
/// the claimant who got it.
pub proof fn lemma_claims_at_most_once(tasks: Seq<TaskView>, claimants: Seq<Seq<char>>)
    ensures
        forall|k: int|
            0 <= k < claimants.len() ==> ((#[trigger] granted(tasks, claimants, k)) is Some <==> k
                < claimable_set(tasks).len()),
        forall|k1: int, k2: int|
            0 <= k1 < k2 < claimants.len() && granted(tasks, claimants, k1) is Some ==> #[trigger] granted(
                tasks,
                claimants,
                k1,
            ) != #[trigger] granted(tasks, claimants, k2),
        forall|k: int|
            0 <= k < claimants.len() ==> (#[trigger] granted(tasks, claimants, k) matches Some(i)
                ==> after_claims(tasks, claimants)[i] == claimed(tasks[i], claimants[k])),
        in_progress_set(after_claims(tasks, claimants)).len() == in_progress_set(tasks).len()
            + smaller(claimable_set(tasks).len() as int, claimants.len() as int),
{
    lemma_claims_invariant(tasks, claimants);
    assert forall|k1: int, k2: int|
        0 <= k1 < k2 < claimants.len() && granted(tasks, claimants, k1) is Some implies #[trigger] granted(
            tasks,
            claimants,
            k1,
        ) != #[trigger] granted(tasks, claimants, k2) by {
        let upto = claimants.take(k2);
        lemma_claims_invariant(tasks, upto);
        assert(upto.take(k1) =~= claimants.take(k1));
        assert(granted(tasks, upto, k1) == granted(tasks, claimants, k1));
        let i = granted(tasks, claimants, k1)->0;
        assert(!claimable(after_claims(tasks, upto), i));
        lemma_next_claimable(after_claims(tasks, upto));
    }
}

/// Dependency gating: a task of which some dependency is not the id of a
/// completed task is handed to no claimant, however many ask.
pub proof fn lemma_blocked_task_is_never_claimed(
    tasks: Seq<TaskView>,
    claimants: Seq<Seq<char>>,
    i: int,
    k: int,
)
    requires
        0 <= i < tasks.len(),
        !dependencies_met(tasks, tasks[i]),
        0 <= k < claimants.len(),
    ensures
        granted(tasks, claimants, k) != Some(i),
{
    lemma_claims_invariant(tasks, claimants);
}

/// Idempotent completion: completing a task that the queue knows leaves it
/// completed, and completing it once more finds it again and changes
/// nothing.
pub proof fn lemma_complete_twice(tasks: Seq<TaskView>, id: Seq<char>)
    ensures
        after_complete(tasks, id).len() == tasks.len(),
        first_with_id(after_complete(tasks, id), id) == first_with_id(tasks, id),
        after_complete(after_complete(tasks, id), id) == after_complete(tasks, id),
        first_with_id(tasks, id) matches Some(i) ==> after_complete(tasks, id)[i] == completed(
            tasks[i],
        ),
{
    let once = after_complete(tasks, id);
    match first_with_id(tasks, id) {
        Some(i) => {
            assert(is_first_with_id(tasks, id, i));
            assert(is_first_with_id(once, id, i));
            lemma_first_with_id_is(once, id, i);
            assert(after_complete(once, id) =~= once);
        },
        None => {},
    }
}

/// Idempotent completion, for the queues of all teams: after a team's task
/// was completed, completing it again finds it if it was found before and
/// leaves every queue as it is.
pub proof fn lemma_complete_task_twice(
    queues: Map<Seq<char>, Seq<TaskView>>,
    team: Seq<char>,
    id: Seq<char>,
)
    ensures
        first_with_id(queue_of(queues_after_complete(queues, team, id), team), id) == first_with_id(
            queue_of(queues, team),
            id,
        ),
        queues_after_complete(queues_after_complete(queues, team, id), team, id)
            == queues_after_complete(queues, team, id),
{
    lemma_complete_twice(queue_of(queues, team), id);
    let once = queues_after_complete(queues, team, id);
    assert(queues_after_complete(once, team, id) =~= once);
}

/// How far a task has come.
pub open spec fn status_rank(status: TeamTaskStatus) -> int {
    match status {
        TeamTaskStatus::Pending => 0,
        TeamTaskStatus::InProgress => 1,
        TeamTaskStatus::Completed => 2,
    }
}

/// `after` holds every task of `before` in its place, under the same id,
/// title and dependencies, and in a status no earlier than it had.
pub open spec fn moves_forward(before: Seq<TaskView>, after: Seq<TaskView>) -> bool {
    &&& before.len() <= after.len()
    &&& forall|i: int|
        0 <= i < before.len() ==> {
            &&& (#[trigger] after[i]).id == before[i].id
            &&& after[i].title == before[i].title
            &&& after[i].depends_on == before[i].depends_on
            &&& status_rank(before[i].status) <= status_rank(after[i].status)
        }
}

/// No way back: creating, claiming, assigning and completing keep every
/// task in the queue and never move one to an earlier status. Claiming and
/// assigning complete no task, and completing changes nothing but the
/// status of the one task.
pub proof fn lemma_tasks_move_forward(
    tasks: Seq<TaskView>,
    task: TaskView,
    id: Seq<char>,
    teammate: Seq<char>,
)
    ensures
        moves_forward(tasks, tasks.push(task)),
        moves_forward(tasks, after_claim(tasks, teammate)),
        moves_forward(tasks, after_assign(tasks, id, teammate)),
        moves_forward(tasks, after_complete(tasks, id)),
        forall|i: int|
            0 <= i < tasks.len() && (#[trigger] after_claim(tasks, teammate)[i]).status
                == TeamTaskStatus::Completed ==> tasks[i].status == TeamTaskStatus::Completed,
        forall|i: int|
            0 <= i < tasks.len() && (#[trigger] after_assign(tasks, id, teammate)[i]).status
                == TeamTaskStatus::Completed ==> tasks[i].status == TeamTaskStatus::Completed,
        forall|i: int|
            0 <= i < tasks.len() ==> (#[trigger] after_complete(tasks, id)[i]).assigned_to
                == tasks[i].assigned_to,
{
    lemma_next_claimable(tasks);
    match first_with_id(tasks, id) {
        Some(i) => {
            assert(is_first_with_id(tasks, id, i));
        },
        None => {},
    }
}

} // verus!
