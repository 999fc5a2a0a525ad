//! What holds of the registry when a team is discarded and made again.

use crate::error::StoreError;
use crate::ident::ThreadId;
use crate::task::TaskView;
use crate::task_list::queue_of;
use crate::team_manager::{
    create_outcome, new_team, new_team_config, teams_after_create, TeamView,
};
use vstd::prelude::*;

verus! {

/// Cleanup wipes fully: once a team was discarded it does not exist and
/// has no work queue, whatever was kept of it before; creating a team of
/// that name then succeeds, and leaves the registry as it would be had the
/// team been created without ever having existed. Discarding once more
/// changes nothing.
pub proof fn lemma_cleanup_wipes_fully(
    teams: Map<Seq<char>, TeamView>,
    queues: Map<Seq<char>, Seq<TaskView>>,
    root: Seq<char>,
    name: Seq<char>,
    leader: ThreadId,
    created_at: Seq<char>,
)
    ensures
        !teams.remove(name).contains_key(name),
        queue_of(queues.remove(name), name) == Seq::<TaskView>::empty(),
        teams.remove(name).remove(name) == teams.remove(name),
        queues.remove(name).remove(name) == queues.remove(name),
        create_outcome(teams.remove(name), name, leader, created_at) == Ok::<_, StoreError>(
            new_team_config(name, leader, created_at),
        ),
        teams_after_create(teams.remove(name), root, name, leader, created_at)[name] == new_team(
            root,
            name,
            leader,
            created_at,
        ),
        !teams.contains_key(name) ==> teams_after_create(
            teams.remove(name),
            root,
            name,
            leader,
            created_at,
        ) == teams_after_create(teams, root, name, leader, created_at),
        forall|other: Seq<char>|
            other != name ==> (#[trigger] teams_after_create(
                teams.remove(name),
                root,
                name,
                leader,
                created_at,
            ).contains_key(other) == teams.contains_key(other)),
        forall|other: Seq<char>|
            other != name && teams.contains_key(other) ==> #[trigger] teams_after_create(
                teams.remove(name),
                root,
                name,
                leader,
                created_at,
            )[other] == teams[other],
{
    assert(teams.remove(name).remove(name) =~= teams.remove(name));
    assert(queues.remove(name).remove(name) =~= queues.remove(name));
    if !teams.contains_key(name) {
        assert(teams.remove(name) =~= teams);
    }
}

} // verus!
