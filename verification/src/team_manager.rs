//! The membership registry: which teams exist below one root directory,
//! who leads each and who its members are.

use crate::clock::now_rfc3339;
use crate::error::StoreError;
use crate::ident::ThreadId;
use crate::inbox::{after_create, Inbox, MessageView};
use crate::name_table::NameTable;
use crate::paths::{join_path, path_join};
use crate::task_list::TaskList;
use crate::text::optional_text;
use vstd::hash_map::StringHashMap;
use vstd::prelude::*;

verus! {

/// One member of a team.
#[derive(Debug, PartialEq, Eq)]
pub struct MemberConfig {
    /// The name by which the team knows the member.
    pub name: String,
    pub thread_id: ThreadId,
    pub role: Option<String>,
    /// What the member is doing, in free words; `running` when it has just
    /// been started.
    pub status: String,
    /// The prompt that the member was started with.
    pub prompt: Option<String>,
}

/// What a member is, as plain values.
pub struct MemberView {
    pub name: Seq<char>,
    pub thread_id: ThreadId,
    pub role: Option<Seq<char>>,
    pub status: Seq<char>,
    pub prompt: Option<Seq<char>>,
}

impl View for MemberConfig {
    type V = MemberView;

    open spec fn view(&self) -> MemberView {
        MemberView {
            name: self.name@,
            thread_id: self.thread_id,
            role: optional_text(self.role),
            status: self.status@,
            prompt: optional_text(self.prompt),
        }
    }
}

impl Clone for MemberConfig {
    fn clone(&self) -> (copy: Self)
        ensures
            copy@ == self@,
    {
        MemberConfig {
            name: self.name.clone(),
            thread_id: self.thread_id,
            role: self.role.clone(),
            status: self.status.clone(),
            prompt: self.prompt.clone(),
        }
    }
}

/// The views of a run of members, in order.
pub open spec fn member_views(members: Seq<MemberConfig>) -> Seq<MemberView> {
    Seq::new(members.len(), |i: int| members[i]@)
}

/// The document of one team: its identity and its members.
#[derive(Debug, PartialEq, Eq)]
pub struct TeamConfig {
    pub name: String,
    /// When the team was created, as an RFC 3339 text.
    pub created_at: String,
    pub leader_thread_id: ThreadId,
    pub members: Vec<MemberConfig>,
    /// How the team is shown; kept and handed on as it is.
    pub display_mode: String,
    /// Whether the leader only delegates; kept and handed on as it is.
    pub delegation_mode: bool,
}

/// What a team's document is, as plain values.
pub struct TeamConfigView {
    pub name: Seq<char>,
    pub created_at: Seq<char>,
    pub leader_thread_id: ThreadId,
    pub members: Seq<MemberView>,
    pub display_mode: Seq<char>,
    pub delegation_mode: bool,
}

impl View for TeamConfig {
    type V = TeamConfigView;

    open spec fn view(&self) -> TeamConfigView {
        TeamConfigView {
            name: self.name@,
            created_at: self.created_at@,
            leader_thread_id: self.leader_thread_id,
            members: member_views(self.members@),
            display_mode: self.display_mode@,
            delegation_mode: self.delegation_mode,
        }
    }
}

impl Clone for TeamConfig {
    fn clone(&self) -> (copy: Self)
        ensures
            copy@ == self@,
    {
        let mut members: Vec<MemberConfig> = Vec::new();
        let mut i: usize = 0;
        while i < self.members.len()
            invariant
                i <= self.members@.len(),
                members@.len() == i,
                forall|j: int| 0 <= j < i ==> members@[j]@ == self.members@[j]@,
            decreases self.members@.len() - i,
        {
            members.push(self.members[i].clone());
            i += 1;
        }
        assert(member_views(members@) =~= member_views(self.members@));
        TeamConfig {
            name: self.name.clone(),
            created_at: self.created_at.clone(),
            leader_thread_id: self.leader_thread_id,
            members,
            display_mode: self.display_mode.clone(),
            delegation_mode: self.delegation_mode,
        }
    }
}

/// All that is kept of one team: its document and its mailboxes.
pub struct Team {
    pub config: TeamConfig,
    pub inbox: Inbox,
}

/// What is kept of one team, as plain values.
pub struct TeamView {
    pub config: TeamConfigView,
    /// The directory of the team's mailboxes.
    pub inbox_dir: Seq<char>,
    /// Whether that directory exists.
    pub inbox_ready: bool,
    /// The log of each agent that has a mailbox.
    pub boxes: Map<Seq<char>, Seq<MessageView>>,
}

impl View for Team {
    type V = TeamView;

    open spec fn view(&self) -> TeamView {
        TeamView {
            config: self.config@,
            inbox_dir: self.inbox.dir(),
            inbox_ready: self.inbox.provisioned(),
            boxes: self.inbox@,
        }
    }
}

/// The directory of the mailboxes of the team `name` below `root`.
pub open spec fn inboxes_dir_of(root: Seq<char>, name: Seq<char>) -> Seq<char> {
    path_join(path_join(root, name), "inboxes"@)
}

/// The document of a team that was just created.
pub open spec fn new_team_config(
    name: Seq<char>,
    leader: ThreadId,
    created_at: Seq<char>,
) -> TeamConfigView {
    TeamConfigView {
        name,
        created_at,
        leader_thread_id: leader,
        members: Seq::empty(),
        display_mode: "in-process"@,
        delegation_mode: false,
    }
}

/// A team that was just created below `root`: no members, and a directory
/// for its mailboxes that holds none.
pub open spec fn new_team(
    root: Seq<char>,
    name: Seq<char>,
    leader: ThreadId,
    created_at: Seq<char>,
) -> TeamView {
    TeamView {
        config: new_team_config(name, leader, created_at),
        inbox_dir: inboxes_dir_of(root, name),
        inbox_ready: true,
        boxes: Map::empty(),
    }
}

/// The teams after the team `name` was to be created below `root`: it is
/// there as created unless a team of that name was there already.
pub open spec fn teams_after_create(
    teams: Map<Seq<char>, TeamView>,
    root: Seq<char>,
    name: Seq<char>,
    leader: ThreadId,
    created_at: Seq<char>,
) -> Map<Seq<char>, TeamView> {
    if teams.contains_key(name) {
        teams
    } else {
        teams.insert(name, new_team(root, name, leader, created_at))
    }
}

/// What creating the team `name` answers: its document, or that the team
/// exists already.
pub open spec fn create_outcome(
    teams: Map<Seq<char>, TeamView>,
    name: Seq<char>,
    leader: ThreadId,
    created_at: Seq<char>,
) -> Result<TeamConfigView, StoreError> {
    if teams.contains_key(name) {
        Err(StoreError::AlreadyExists)
    } else {
        Ok(new_team_config(name, leader, created_at))
    }
}

/// What an operation on the team `name` answers that needs the team to
/// exist and returns nothing.
pub open spec fn found_outcome(teams: Map<Seq<char>, TeamView>, name: Seq<char>) -> Result<
    (),
    StoreError,
> {
    if teams.contains_key(name) {
        Ok(())
    } else {
        Err(StoreError::NotFound)
    }
}

/// The teams after the team `name`, if it exists, became `changed`.
pub open spec fn teams_with(
    teams: Map<Seq<char>, TeamView>,
    name: Seq<char>,
    changed: TeamView,
) -> Map<Seq<char>, TeamView> {
    if teams.contains_key(name) {
        teams.insert(name, changed)
    } else {
        teams
    }
}

/// The view of a document, or the failure in its place.
pub open spec fn config_outcome(outcome: Result<TeamConfig, StoreError>) -> Result<
    TeamConfigView,
    StoreError,
> {
    match outcome {
        Ok(config) => Ok(config@),
        Err(error) => Err(error),
    }
}

/// `team` with one member more, who has a mailbox: its own where it had
/// one, an empty one else.
pub open spec fn with_member(team: TeamView, member: MemberView) -> TeamView {
    TeamView {
        config: TeamConfigView { members: team.config.members.push(member), ..team.config },
        inbox_ready: true,
        boxes: after_create(team.boxes, member.name),
        ..team
    }
}

/// The members that are not called `name`.
pub open spec fn members_without(members: Seq<MemberView>, name: Seq<char>) -> Seq<MemberView> {
    members.filter(|member: MemberView| member.name != name)
}

/// `team` without the members called `name`.
pub open spec fn without_member(team: TeamView, name: Seq<char>) -> TeamView {
    TeamView {
        config: TeamConfigView {
            members: members_without(team.config.members, name),
            ..team.config
        },
        ..team
    }
}

/// `i` is the first member called `name`.
pub open spec fn is_first_named(members: Seq<MemberView>, name: Seq<char>, i: int) -> bool {
    &&& 0 <= i < members.len()
    &&& members[i].name == name
    &&& forall|j: int| 0 <= j < i ==> (#[trigger] members[j]).name != name
}

/// The first member called `name`, if any is.
pub open spec fn first_named(members: Seq<MemberView>, name: Seq<char>) -> Option<int> {
    if exists|i: int| is_first_named(members, name, i) {
        Some(choose|i: int| is_first_named(members, name, i))
    } else {
        None
    }
}

/// The members after the first one called `name`, if there is one, was
/// given the status `status`.
pub open spec fn members_with_status(
    members: Seq<MemberView>,
    name: Seq<char>,
    status: Seq<char>,
) -> Seq<MemberView> {
    match first_named(members, name) {
        Some(i) => members.update(i, MemberView { status, ..members[i] }),
        None => members,
    }
}

/// `team` after its first member called `name` was given the status `status`.
pub open spec fn with_member_status(
    team: TeamView,
    name: Seq<char>,
    status: Seq<char>,
) -> TeamView {
    TeamView {
        config: TeamConfigView {
            members: members_with_status(team.config.members, name, status),
            ..team.config
        },
        ..team
    }
}

/// The handles of the members of a team, by the members' names.
pub type MemberHandles = StringHashMap<ThreadId>;

/// The handle of each member under the member's name; of two members with
/// one name, the later one's.
pub open spec fn members_map(members: Seq<MemberView>) -> Map<Seq<char>, ThreadId>
    decreases members.len(),
{
    if members.len() == 0 {
        Map::empty()
    } else {
        members_map(members.drop_last()).insert(members.last().name, members.last().thread_id)
    }
}

/// The first member with the name is the only one that `first_named` can name.
pub proof fn lemma_first_named_is(members: Seq<MemberView>, name: Seq<char>, i: int)
    requires
        is_first_named(members, name, i),
    ensures
        first_named(members, name) == Some(i),
{
    let chosen = choose|c: int| is_first_named(members, name, c);
    assert(is_first_named(members, name, chosen));
    if chosen < i {
        assert(members[chosen].name != name);
    } else if i < chosen {
        assert(members[i].name != name);
    }
}

/// Where no member has the name, `first_named` names none.
pub proof fn lemma_first_named_none(members: Seq<MemberView>, name: Seq<char>)
    requires
        forall|j: int| 0 <= j < members.len() ==> (#[trigger] members[j]).name != name,
    ensures
        first_named(members, name) is None,
{
    if exists|i: int| is_first_named(members, name, i) {
        let i = choose|i: int| is_first_named(members, name, i);
        assert(members[i].name == name);
    }
}

/// Where the first member called `name` stands, if there is one.
pub(crate) fn position_of_member(members: &Vec<MemberConfig>, name: &str) -> (found: Option<usize>)
    ensures
        match found {
            Some(i) => first_named(member_views(members@), name@) == Some(i as int) && i
                < members@.len(),
            None => first_named(member_views(members@), name@) is None,
        },
{
    let wanted = name.to_owned();
    let mut i: usize = 0;
    while i < members.len()
        invariant
            i <= members@.len(),
            wanted@ == name@,
            forall|j: int| 0 <= j < i ==> (#[trigger] member_views(members@)[j]).name != name@,
        decreases members@.len() - i,
    {
        if members[i].name == wanted {
            proof {
                lemma_first_named_is(member_views(members@), name@, i as int);
            }
            return Some(i);
        }
        i += 1;
    }
    proof {
        lemma_first_named_none(member_views(members@), name@);
    }
    None
}

/// The teams below one root directory.
///
/// The view maps the name of each team that exists to what is kept of it.
pub struct TeamManager {
    teams_root: String,
    teams: NameTable<Team>,
}

impl View for TeamManager {
    type V = Map<Seq<char>, TeamView>;

    closed spec fn view(&self) -> Map<Seq<char>, TeamView> {
        Map::new(
            |name: Seq<char>| self.teams@.contains_key(name),
            |name: Seq<char>| self.teams@[name]@,
        )
    }
}

impl TeamManager {
    /// The root directory below which the teams are kept.
    pub closed spec fn root(&self) -> Seq<char> {
        self.teams_root@
    }

    /// The teams below `teams_root`, none of which exists yet.
    pub fn new(teams_root: String) -> (manager: Self)
        ensures
            manager.root() == teams_root@,
            manager@ == Map::<Seq<char>, TeamView>::empty(),
    {
        let manager = TeamManager { teams_root, teams: NameTable::new() };
        assert(manager@ =~= Map::<Seq<char>, TeamView>::empty());
        manager
    }

    /// The directory of the team.
    pub fn team_dir(&self, name: &str) -> (dir: String)
        ensures
            dir@ == path_join(self.root(), name@),
    {
        join_path(self.teams_root.as_str(), name)
    }

    /// The path of the team's document, `config.json` in its directory.
    pub fn config_path(&self, name: &str) -> (path: String)
        ensures
            path@ == path_join(path_join(self.root(), name@), "config.json"@),
    {
        let dir = self.team_dir(name);
        join_path(dir.as_str(), "config.json")
    }

    /// The directory of the team's mailboxes, `inboxes` in its directory.
    pub fn inboxes_dir(&self, name: &str) -> (dir: String)
        ensures
            dir@ == inboxes_dir_of(self.root(), name@),
    {
        let dir = self.team_dir(name);
        join_path(dir.as_str(), "inboxes")
    }

    /// Whether the team exists.
    pub fn team_exists(&self, name: &str) -> (exists: bool)
        ensures
            exists == self@.contains_key(name@),
    {
        self.teams.contains_name(name)
    }

    /// What is kept of the team, if it exists.
    pub fn team(&self, name: &str) -> (found: Option<&Team>)
        ensures
            match found {
                Some(team) => self@.contains_key(name@) && team@ == self@[name@],
                None => !self@.contains_key(name@),
            },
    {
        self.teams.get(name)
    }

    /// Takes out what is kept of the team, which then does not exist any more.
    pub fn take_team(&mut self, name: &str) -> (taken: Option<Team>)
        ensures
            final(self).root() == old(self).root(),
            final(self)@ == old(self)@.remove(name@),
            match taken {
                Some(team) => old(self)@.contains_key(name@) && team@ == old(self)@[name@],
                None => !old(self)@.contains_key(name@),
            },
    {
        let taken = self.teams.take(name);
        assert(self@ =~= old(self)@.remove(name@));
        taken
    }

    /// Keeps `team` under `name`, in place of what was kept there.
    pub fn put_team(&mut self, name: &str, team: Team)
        ensures
            final(self).root() == old(self).root(),
            final(self)@ == old(self)@.insert(name@, team@),
    {
        self.teams.put(name, team);
        assert(self@ =~= old(self)@.insert(name@, team@));
    }

    /// Creates the team `name`, led by `leader_thread_id` and created at
    /// `created_at`, with no members and an empty directory of mailboxes, and
    /// returns its document. Fails where the team exists already.
    pub fn create_team_at(
        &mut self,
        name: &str,
        leader_thread_id: ThreadId,
        created_at: &str,
    ) -> (created: Result<TeamConfig, StoreError>)
        ensures
            final(self).root() == old(self).root(),
            config_outcome(created) == create_outcome(
                old(self)@,
                name@,
                leader_thread_id,
                created_at@,
            ),
            final(self)@ == teams_after_create(
                old(self)@,
                old(self).root(),
                name@,
                leader_thread_id,
                created_at@,
            ),
    {
        if self.teams.contains_name(name) {
            return Err(StoreError::AlreadyExists);
        }
        let mut inbox = Inbox::new(self.inboxes_dir(name));
        inbox.init();
        let config = TeamConfig {
            name: name.to_owned(),
            created_at: created_at.to_owned(),
            leader_thread_id,
            members: Vec::new(),
            display_mode: "in-process".to_owned(),
            delegation_mode: false,
        };
        assert(config@.members =~= Seq::<MemberView>::empty());
        let copy = config.clone();
        self.teams.put(name, Team { config, inbox });
        assert(self@ =~= old(self)@.insert(
            name@,
            new_team(old(self).root(), name@, leader_thread_id, created_at@),
        ));
        Ok(copy)
    }

    /// Creates the team `name`, led by `leader_thread_id` and created now,
    /// with no members and an empty directory of mailboxes, and returns its
    /// document. Fails where the team exists already.
    pub fn create_team(&mut self, name: &str, leader_thread_id: ThreadId) -> (created: Result<
        TeamConfig,
        StoreError,
    >)
        ensures
            final(self).root() == old(self).root(),
            exists|created_at: Seq<char>|
                {
                    &&& config_outcome(created) == #[trigger] create_outcome(
                        old(self)@,
                        name@,
                        leader_thread_id,
                        created_at,
                    )
                    &&& final(self)@ == teams_after_create(
                        old(self)@,
                        old(self).root(),
                        name@,
                        leader_thread_id,
                        created_at,
                    )
                },
    {
        let stamp = now_rfc3339();
        let created = self.create_team_at(name, leader_thread_id, stamp.as_str());
        assert(config_outcome(created) == create_outcome(
            old(self)@,
            name@,
            leader_thread_id,
            stamp@,
        ));
        created
    }

    /// Adds `member` to the team and makes sure the member has a mailbox,
    /// which keeps its messages where it exists already. A member is added
    /// whether or not another one has its name. Fails where the team does
    /// not exist.
    pub fn add_member(&mut self, team_name: &str, member: MemberConfig) -> (added: Result<
        (),
        StoreError,
    >)
        ensures
            final(self).root() == old(self).root(),
            added == found_outcome(old(self)@, team_name@),
            final(self)@ == teams_with(
                old(self)@,
                team_name@,
                with_member(old(self)@[team_name@], member@),
            ),
    {
        match self.teams.take(team_name) {
            Some(mut team) => {
                team.inbox.create_inbox(member.name.as_str());
                let ghost before = team.config@.members;
                team.config.members.push(member);
                assert(team.config@.members =~= before.push(member@));
                self.teams.put(team_name, team);
                assert(self@ =~= old(self)@.insert(
                    team_name@,
                    with_member(old(self)@[team_name@], member@),
                ));
                Ok(())
            },
            None => {
                assert(self@ =~= old(self)@);
                Err(StoreError::NotFound)
            },
        }
    }

    /// Removes every member called `member_name` from the team; none being
    /// called so is no failure. Fails where the team does not exist.
    pub fn remove_member(&mut self, team_name: &str, member_name: &str) -> (removed: Result<
        (),
        StoreError,
    >)
        ensures
            final(self).root() == old(self).root(),
            removed == found_outcome(old(self)@, team_name@),
            final(self)@ == teams_with(
                old(self)@,
                team_name@,
                without_member(old(self)@[team_name@], member_name@),
            ),
    {
        match self.teams.take(team_name) {
            Some(mut team) => {
                let unwanted = member_name.to_owned();
                let ghost before = team.config@.members;
                let mut kept: Vec<MemberConfig> = Vec::new();
                let mut i: usize = 0;
                assert(before.take(0) =~= Seq::<MemberView>::empty());
                assert(member_views(kept@) =~= members_without(before.take(0), member_name@)) by {
                    reveal(Seq::filter);
                }
                while i < team.config.members.len()
                    invariant
                        i <= team.config.members@.len(),
                        unwanted@ == member_name@,
                        before == team.config@.members,
                        member_views(kept@) == members_without(before.take(i as int), member_name@),
                    decreases team.config.members@.len() - i,
                {
                    proof {
                        before.take(i as int).lemma_filter_push(
                            before[i as int],
                            |member: MemberView| member.name != member_name@,
                        );
                        assert(before.take(i as int).push(before[i as int]) =~= before.take(i + 1));
                    }
                    if team.config.members[i].name != unwanted {
                        let ghost earlier = member_views(kept@);
                        kept.push(team.config.members[i].clone());
                        assert(member_views(kept@) =~= earlier.push(before[i as int]));
                    }
                    i += 1;
                }
                assert(before.take(i as int) =~= before);
                team.config.members = kept;
                self.teams.put(team_name, team);
                assert(self@ =~= old(self)@.insert(
                    team_name@,
                    without_member(old(self)@[team_name@], member_name@),
                ));
                Ok(())
            },
            None => {
                assert(self@ =~= old(self)@);
                Err(StoreError::NotFound)
            },
        }
    }

    /// Gives the team's first member called `member_name` the status
    /// `status`; nobody being called so is no failure. Fails where the team
    /// does not exist.
    pub fn update_member_status(
        &mut self,
        team_name: &str,
        member_name: &str,
        status: &str,
    ) -> (updated: Result<(), StoreError>)
        ensures
            final(self).root() == old(self).root(),
            updated == found_outcome(old(self)@, team_name@),
            final(self)@ == teams_with(
                old(self)@,
                team_name@,
                with_member_status(old(self)@[team_name@], member_name@, status@),
            ),
    {
        match self.teams.take(team_name) {
            Some(mut team) => {
                let ghost before = team.config@.members;
                match position_of_member(&team.config.members, member_name) {
                    Some(i) => {
                        team.config.members[i].status = status.to_owned();
                        assert(team.config@.members =~= before.update(
                            i as int,
                            MemberView { status: status@, ..before[i as int] },
                        ));
                    },
                    None => {},
                }
                self.teams.put(team_name, team);
                assert(self@ =~= old(self)@.insert(
                    team_name@,
                    with_member_status(old(self)@[team_name@], member_name@, status@),
                ));
                Ok(())
            },
            None => {
                assert(self@ =~= old(self)@);
                Err(StoreError::NotFound)
            },
        }
    }

    /// The team's document. Fails where the team does not exist.
    pub fn load_config(&self, name: &str) -> (loaded: Result<TeamConfig, StoreError>)
        ensures
            match loaded {
                Ok(config) => self@.contains_key(name@) && config@ == self@[name@].config,
                Err(error) => !self@.contains_key(name@) && error == StoreError::NotFound,
            },
    {
        match self.teams.get(name) {
            Some(team) => Ok(team.config.clone()),
            None => Err(StoreError::NotFound),
        }
    }

    /// Makes `config` the team's document. Fails where the team does not exist.
    pub fn save_config(&mut self, name: &str, config: &TeamConfig) -> (saved: Result<(), StoreError>)
        ensures
            final(self).root() == old(self).root(),
            saved == found_outcome(old(self)@, name@),
            final(self)@ == teams_with(
                old(self)@,
                name@,
                TeamView { config: config@, ..old(self)@[name@] },
            ),
    {
        match self.teams.take(name) {
            Some(mut team) => {
                team.config = config.clone();
                self.teams.put(name, team);
                assert(self@ =~= old(self)@.insert(
                    name@,
                    TeamView { config: config@, ..old(self)@[name@] },
                ));
                Ok(())
            },
            None => {
                assert(self@ =~= old(self)@);
                Err(StoreError::NotFound)
            },
        }
    }

    /// The handle of each member of the team under the member's name. Fails
    /// where the team does not exist.
    pub fn list_members(&self, team_name: &str) -> (listed: Result<MemberHandles, StoreError>)
        ensures
            match listed {
                Ok(handles) => self@.contains_key(team_name@) && handles@ == members_map(
                    self@[team_name@].config.members,
                ),
                Err(error) => !self@.contains_key(team_name@) && error == StoreError::NotFound,
            },
    {
        match self.teams.get(team_name) {
            Some(team) => {
                let ghost members = team.config@.members;
                let mut handles: StringHashMap<ThreadId> = StringHashMap::new();
                let mut i: usize = 0;
                assert(members.take(0) =~= Seq::<MemberView>::empty());
                while i < team.config.members.len()
                    invariant
                        i <= team.config.members@.len(),
                        members == team.config@.members,
                        handles@ == members_map(members.take(i as int)),
                    decreases team.config.members@.len() - i,
                {
                    assert(members.take(i + 1).drop_last() =~= members.take(i as int));
                    let member = &team.config.members[i];
                    handles.insert(member.name.clone(), member.thread_id);
                    i += 1;
                }
                assert(members.take(i as int) =~= members);
                Ok(handles)
            },
            None => Err(StoreError::NotFound),
        }
    }

    /// Discards all that is kept of the team: its document, its mailboxes and
    /// its work queue in `tasks`. Nothing changes where there is none of it.
    pub fn cleanup_team(&mut self, tasks: &mut TaskList, name: &str)
        ensures
            final(self).root() == old(self).root(),
            final(self)@ == old(self)@.remove(name@),
            final(tasks).root() == old(tasks).root(),
            final(tasks)@ == old(tasks)@.remove(name@),
    {
        tasks.cleanup(name);
        let _ = self.teams.take(name);
        assert(self@ =~= old(self)@.remove(name@));
    }
}

} // verus!
