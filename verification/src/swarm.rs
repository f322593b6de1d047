//! The swarm coordinator: named teams of agents, and tasks fanned out over
//! the workers of a team with their completion tracked.
//!
//! Tasks are numbered from one counter in the order of their creation, the
//! parent of a fan-out first and its subtasks right behind it. A task is
//! never removed, so the counter is also the number of tasks so far.

use vstd::prelude::*;
use vstd::string::*;
use crate::seqs::{
    first_where, lemma_filter_empty, lemma_filter_step, lemma_first_where_is, views,
};
use crate::text::{decimal, decimal_string, lemma_decimal_injective, option_text};

verus! {

/// The part an agent plays in a team.
#[derive(Debug, Clone, Copy, PartialEq, Eq, Structural)]
pub enum SwarmRole {
    Leader,
    Worker,
    Reviewer,
}

/// How far a task has come.
#[derive(Debug, Clone, Copy, PartialEq, Eq, Structural)]
pub enum SwarmTaskStatus {
    Pending,
    InProgress,
    Completed,
    Failed,
}

/// One agent of a team.
#[derive(Debug)]
pub struct SwarmMember {
    pub agent_id: String,
    pub role: SwarmRole,
}

/// A named, ordered list of members.
#[derive(Debug)]
pub struct SwarmTeam {
    pub name: String,
    pub members: Vec<SwarmMember>,
}

/// A task: the parent of a fan-out, or one of its subtasks.
#[derive(Debug)]
pub struct SwarmTask {
    pub id: String,
    pub parent_task: Option<String>,
    pub description: String,
    pub assigned_to: String,
    pub status: SwarmTaskStatus,
}

/// What a member is, in mathematical terms.
pub struct SwarmMemberView {
    pub agent_id: Seq<char>,
    pub role: SwarmRole,
}

/// What a team is, in mathematical terms.
pub struct SwarmTeamView {
    pub name: Seq<char>,
    pub members: Seq<SwarmMemberView>,
}

/// What a task is, in mathematical terms.
pub struct SwarmTaskView {
    pub id: Seq<char>,
    pub parent_task: Option<Seq<char>>,
    pub description: Seq<char>,
    pub assigned_to: Seq<char>,
    pub status: SwarmTaskStatus,
}

/// What a coordinator holds: its teams and its tasks, both in the order in
/// which they were created.
pub struct SwarmView {
    pub teams: Seq<SwarmTeamView>,
    pub tasks: Seq<SwarmTaskView>,
}

impl View for SwarmMember {
    type V = SwarmMemberView;

    open spec fn view(&self) -> SwarmMemberView {
        SwarmMemberView { agent_id: self.agent_id@, role: self.role }
    }
}

impl View for SwarmTeam {
    type V = SwarmTeamView;

    open spec fn view(&self) -> SwarmTeamView {
        SwarmTeamView { name: self.name@, members: views(self.members@) }
    }
}

impl View for SwarmTask {
    type V = SwarmTaskView;

    open spec fn view(&self) -> SwarmTaskView {
        SwarmTaskView {
            id: self.id@,
            parent_task: match self.parent_task {
                Some(p) => Some(p@),
                None => None,
            },
            description: self.description@,
            assigned_to: self.assigned_to@,
            status: self.status,
        }
    }
}

impl Clone for SwarmMember {
    fn clone(&self) -> (copy: Self)
        ensures
            copy == *self,
    {
        SwarmMember { agent_id: self.agent_id.clone(), role: self.role }
    }
}

impl Clone for SwarmTask {
    fn clone(&self) -> (copy: Self)
        ensures
            copy == *self,
    {
        SwarmTask {
            id: self.id.clone(),
            parent_task: match &self.parent_task {
                Some(p) => Some(p.clone()),
                None => None,
            },
            description: self.description.clone(),
            assigned_to: self.assigned_to.clone(),
            status: self.status,
        }
    }
}

impl Clone for SwarmTeam {
    fn clone(&self) -> (copy: Self)
        ensures
            copy@ == self@,
    {
        let mut members: Vec<SwarmMember> = Vec::new();
        let mut i: usize = 0;
        while i < self.members.len()
            invariant
                i <= self.members.len(),
                members@ == self.members@.take(i as int),
            decreases self.members.len() - i,
        {
            members.push(self.members[i].clone());
            assert(self.members@.take(i + 1) =~= self.members@.take(i as int).push(
                self.members@[i as int],
            ));
            i += 1;
        }
        assert(self.members@.take(i as int) =~= self.members@);
        SwarmTeam { name: self.name.clone(), members }
    }
}

/// The identifier of the task with the given number.
pub open spec fn task_id_of(n: nat) -> Seq<char> {
    "swarm-task-"@ + decimal(n)
}

/// Different numbers give different identifiers.
pub proof fn lemma_task_id_injective(a: nat, b: nat)
    requires
        task_id_of(a) == task_id_of(b),
    ensures
        a == b,
{
    let prefix = "swarm-task-"@;
    assert(task_id_of(a).skip(prefix.len() as int) =~= decimal(a));
    assert(task_id_of(b).skip(prefix.len() as int) =~= decimal(b));
    lemma_decimal_injective(a, b);
}

/// Whether a member may be given tasks: leaders and workers may, members of
/// any other role may not.
pub open spec fn eligible(m: SwarmMemberView) -> bool {
    m.role == SwarmRole::Leader || m.role == SwarmRole::Worker
}

/// The members of a team that may be given tasks, in the order of the team.
pub open spec fn workers_of(members: Seq<SwarmMemberView>) -> Seq<SwarmMemberView> {
    members.filter(|m: SwarmMemberView| eligible(m))
}

/// The place of the first team of the given name, or the number of teams
/// where none has it.
pub open spec fn team_index(teams: Seq<SwarmTeamView>, name: Seq<char>) -> int {
    first_where(teams, |t: SwarmTeamView| t.name == name)
}

/// The place of the first leader of a team, or the number of members where
/// it has none.
pub open spec fn leader_index(members: Seq<SwarmMemberView>) -> int {
    first_where(members, |m: SwarmMemberView| m.role == SwarmRole::Leader)
}

/// The member that answers for a fan-out: the first leader, or the first
/// eligible worker of a team without a leader.
pub open spec fn lead_of(members: Seq<SwarmMemberView>) -> SwarmMemberView {
    if leader_index(members) < members.len() {
        members[leader_index(members)]
    } else {
        workers_of(members)[0]
    }
}

/// The place of the first task with the given identifier, or the number of
/// tasks where none has it.
pub open spec fn task_index(tasks: Seq<SwarmTaskView>, id: Seq<char>) -> int {
    first_where(tasks, |t: SwarmTaskView| t.id == id)
}

/// The tasks that one fan-out creates when `n` tasks exist already: the
/// parent, in progress and with the lead of the team, then one pending
/// subtask for each description, handed round-robin to the eligible workers.
pub open spec fn planned_tasks(
    members: Seq<SwarmMemberView>,
    n: nat,
    description: Seq<char>,
    subtasks: Seq<Seq<char>>,
) -> Seq<SwarmTaskView> {
    let workers = workers_of(members);
    seq![
        SwarmTaskView {
            id: task_id_of(n),
            parent_task: None,
            description: description,
            assigned_to: lead_of(members).agent_id,
            status: SwarmTaskStatus::InProgress,
        },
    ] + Seq::new(
        subtasks.len(),
        |i: int|
            SwarmTaskView {
                id: task_id_of((n + 1 + i) as nat),
                parent_task: Some(task_id_of(n)),
                description: subtasks[i],
                assigned_to: workers[i % (workers.len() as int)].agent_id,
                status: SwarmTaskStatus::Pending,
            },
    )
}

/// What a fan-out comes to in a given state: the new tasks, or the message
/// of the error that stops it.
pub open spec fn fan_out_outcome(
    state: SwarmView,
    team_name: Seq<char>,
    description: Seq<char>,
    subtasks: Seq<Seq<char>>,
) -> Result<Seq<SwarmTaskView>, Seq<char>> {
    let at = team_index(state.teams, team_name);
    if at >= state.teams.len() {
        Err("team '"@ + team_name + "' not found"@)
    } else if workers_of(state.teams[at].members).len() == 0 {
        Err("team has no workers"@)
    } else {
        Ok(planned_tasks(state.teams[at].members, state.tasks.len(), description, subtasks))
    }
}

/// Whether a task is a subtask of the given parent.
pub open spec fn child_of(t: SwarmTaskView, parent: Seq<char>) -> bool {
    t.parent_task == Some(parent)
}

/// Whether a task passes the filter of a listing: every task passes where no
/// parent is asked for, else the subtasks of that parent.
pub open spec fn listed(t: SwarmTaskView, parent: Option<Seq<char>>) -> bool {
    match parent {
        Some(p) => child_of(t, p),
        None => true,
    }
}

/// The tasks that a listing returns, in the order of their creation.
pub open spec fn listing(tasks: Seq<SwarmTaskView>, parent: Option<Seq<char>>) -> Seq<
    SwarmTaskView,
> {
    tasks.filter(|t: SwarmTaskView| listed(t, parent))
}

/// A fan-out is complete when its parent has at least one subtask and every
/// subtask of it is completed.
pub open spec fn fan_out_complete(tasks: Seq<SwarmTaskView>, parent: Seq<char>) -> bool {
    &&& exists|i: int| 0 <= i < tasks.len() && child_of(#[trigger] tasks[i], parent)
    &&& forall|i: int|
        0 <= i < tasks.len() && child_of(#[trigger] tasks[i], parent) ==> tasks[i].status
            == SwarmTaskStatus::Completed
}

/// The tasks are numbered in the order of their creation, and a subtask
/// names a parent that was created before it.
pub open spec fn numbered(tasks: Seq<SwarmTaskView>) -> bool {
    forall|i: int|
        0 <= i < tasks.len() ==> {
            &&& (#[trigger] tasks[i]).id == task_id_of(i as nat)
            &&& tasks[i].parent_task matches Some(p) ==> exists|j: int|
                0 <= j < i && (#[trigger] tasks[j]).id == p
        }
}

/// Teams and tasks of a swarm, with the counter that numbers the tasks.
pub struct SwarmCoordinator {
    teams: Vec<SwarmTeam>,
    tasks: Vec<SwarmTask>,
    next_task_id: u64,
}

impl View for SwarmCoordinator {
    type V = SwarmView;

    closed spec fn view(&self) -> SwarmView {
        SwarmView { teams: views(self.teams@), tasks: views(self.tasks@) }
    }
}

impl SwarmCoordinator {
    /// The number that the next task gets.
    pub closed spec fn next_number(&self) -> nat {
        self.next_task_id as nat
    }

    /// The coordinator's invariant: the counter stands at the number of
    /// tasks, and the tasks are numbered as they were created.
    pub open spec fn wf(&self) -> bool {
        &&& self.next_number() == self@.tasks.len()
        &&& numbered(self@.tasks)
    }

    /// A coordinator without teams and tasks.
    pub fn new() -> (c: Self)
        ensures
            c.wf(),
            c@.teams.len() == 0,
            c@.tasks.len() == 0,
    {
        SwarmCoordinator { teams: Vec::new(), tasks: Vec::new(), next_task_id: 0 }
    }

    /// Adds a team behind the teams that exist and returns it. A name may
    /// occur twice: lookups by name find the team that was created first.
    pub fn create_team(&mut self, name: String, members: Vec<SwarmMember>) -> (team: &SwarmTeam)
        requires
            old(self).wf(),
        ensures
            final(self).wf(),
            team@ == (SwarmTeamView { name: name@, members: views(members@) }),
            final(self)@.teams == old(self)@.teams.push(team@),
            final(self)@.tasks == old(self)@.tasks,
            final(self).next_number() == old(self).next_number(),
    {
        let ghost before = self.teams@;
        self.teams.push(SwarmTeam { name, members });
        assert(views(self.teams@) =~= views(before).push(self.teams@[before.len() as int]@));
        &self.teams[self.teams.len() - 1]
    }

    /// The teams in the order of their creation.
    pub fn list_teams(&self) -> (teams: &[SwarmTeam])
        ensures
            views(teams@) == self@.teams,
    {
        self.teams.as_slice()
    }

    fn find_team(&self, team_name: &str) -> (at: usize)
        ensures
            at as int == team_index(self@.teams, team_name@),
            at <= self.teams@.len(),
    {
        let ghost teams = views(self.teams@);
        let ghost p = |t: SwarmTeamView| t.name == team_name@;
        let mut i: usize = 0;
        while i < self.teams.len()
            invariant
                i <= self.teams.len(),
                teams == views(self.teams@),
                p == |t: SwarmTeamView| t.name == team_name@,
                forall|j: int| 0 <= j < i ==> !p(#[trigger] teams[j]),
            decreases self.teams.len() - i,
        {
            if self.teams[i].name.as_str().eq(team_name) {
                proof {
                    assert(p(teams[i as int]));
                    lemma_first_where_is(teams, p, i as int);
                }
                return i;
            }
            i += 1;
        }
        proof {
            lemma_first_where_is(teams, p, i as int);
        }
        i
    }

    fn find_task(&self, id: &str) -> (at: usize)
        ensures
            at as int == task_index(self@.tasks, id@),
            at <= self.tasks@.len(),
    {
        let ghost tasks = views(self.tasks@);
        let ghost p = |t: SwarmTaskView| t.id == id@;
        let mut i: usize = 0;
        while i < self.tasks.len()
            invariant
                i <= self.tasks.len(),
                tasks == views(self.tasks@),
                p == |t: SwarmTaskView| t.id == id@,
                forall|j: int| 0 <= j < i ==> !p(#[trigger] tasks[j]),
            decreases self.tasks.len() - i,
        {
            if self.tasks[i].id.as_str().eq(id) {
                proof {
                    assert(p(tasks[i as int]));
                    lemma_first_where_is(tasks, p, i as int);
                }
                return i;
            }
            i += 1;
        }
        proof {
            lemma_first_where_is(tasks, p, i as int);
        }
        i
    }

    /// Breaks a task down over a team. The team is the first of the given
    /// name; its leaders and workers take the subtasks in turn, and its lead
    /// takes the parent. Returns the subtasks. Where the team is unknown or
    /// has nobody to work, nothing changes and the error says which.
    pub fn fan_out(
        &mut self,
        team_name: &str,
        task_description: &str,
        subtask_descriptions: Vec<String>,
    ) -> (r: Result<Vec<&SwarmTask>, String>)
        requires
            old(self).wf(),
        ensures
            final(self).wf(),
            final(self)@.teams == old(self)@.teams,
            match fan_out_outcome(
                old(self)@,
                team_name@,
                task_description@,
                views(subtask_descriptions@),
            ) {
                Ok(tasks) => (r matches Ok(children) && final(self)@.tasks == old(self)@.tasks
                    + tasks && views(children@) == tasks.skip(1)),
                Err(message) => (r matches Err(e) && e@ == message
                    && final(self)@ == old(self)@),
            },
    {
        let ghost before = views(self.tasks@);
        let ghost subs = views(subtask_descriptions@);
        let at = self.find_team(team_name);
        if at >= self.teams.len() {
            let mut message = "team '".to_string();
            message.append(team_name);
            message.append("' not found");
            return Err(message);
        }
        let ghost members = views(self.teams@[at as int].members@);
        assert(views(self.teams@)[at as int].members == members);
        let workers = eligible_indices(&self.teams[at].members);
        if workers.len() == 0 {
            return Err("team has no workers".to_string());
        }
        let first_leader = find_leader(&self.teams[at].members);
        let lead = if first_leader < self.teams[at].members.len() {
            first_leader
        } else {
            workers[0]
        };
        let ghost n = self.tasks@.len();
        let ghost planned = planned_tasks(members, n, task_description@, subs);
        let parent_id = task_id_string(self.next_task_id);
        let parent = SwarmTask {
            id: parent_id.clone(),
            parent_task: None,
            description: task_description.to_string(),
            assigned_to: self.teams[at].members[lead].agent_id.clone(),
            status: SwarmTaskStatus::InProgress,
        };
        assert(parent@ == planned[0]);
        self.tasks.push(parent);
        assert(self.next_task_id < self.tasks.len());
        self.next_task_id = self.next_task_id + 1;
        assert(views(self.tasks@) =~= before + planned.take(1));
        let start = self.tasks.len();
        let mut i: usize = 0;
        while i < subtask_descriptions.len()
            invariant
                i <= subtask_descriptions.len(),
                subs == views(subtask_descriptions@),
                at < self.teams.len(),
                self.teams@ == old(self).teams@,
                members == views(self.teams@[at as int].members@),
                workers@.len() > 0,
                workers@.len() == workers_of(members).len(),
                forall|k: int|
                    0 <= k < workers@.len() ==> workers@[k] < members.len() && members[
                        #[trigger] workers@[k] as int] == workers_of(members)[k],
                planned == planned_tasks(members, n, task_description@, subs),
                n == before.len(),
                start == n + 1,
                parent_id@ == task_id_of(n),
                self.next_task_id as nat == self.tasks@.len(),
                views(self.tasks@) == before + planned.take(1 + i),
            decreases subtask_descriptions.len() - i,
        {
            let turn = i % workers.len();
            let worker = workers[turn];
            let ghost here = views(self.tasks@);
            let child = SwarmTask {
                id: task_id_string(self.next_task_id),
                parent_task: Some(parent_id.clone()),
                description: subtask_descriptions[i].clone(),
                assigned_to: self.teams[at].members[worker].agent_id.clone(),
                status: SwarmTaskStatus::Pending,
            };
            proof {
                assert(here.len() == n + 1 + i);
                assert(members[workers@[turn as int] as int] == workers_of(members)[turn as int]);
                assert(child@ == planned[1 + i]);
            }
            self.tasks.push(child);
            assert(self.next_task_id < self.tasks.len());
            self.next_task_id = self.next_task_id + 1;
            assert(views(self.tasks@) =~= here.push(planned[1 + i]));
            assert(planned.take(2 + i) =~= planned.take(1 + i).push(planned[1 + i]));
            assert(before + planned.take(2 + i) =~= (before + planned.take(1 + i)).push(
                planned[1 + i],
            ));
            i += 1;
        }
        assert(planned.take(1 + i) =~= planned);
        proof {
            lemma_planned_numbered(before, members, task_description@, subs);
        }
        let mut children: Vec<&SwarmTask> = Vec::new();
        let mut k: usize = start;
        while k < self.tasks.len()
            invariant
                start <= k <= self.tasks.len(),
                children@.len() == k - start,
                forall|j: int|
                    0 <= j < children@.len() ==> *(#[trigger] children@[j]) == self.tasks@[start
                        + j],
            decreases self.tasks.len() - k,
        {
            children.push(&self.tasks[k]);
            k += 1;
        }
        assert(views(children@) =~= planned.skip(1)) by {
            assert forall|j: int| 0 <= j < planned.skip(1).len() implies views(children@)[j]
                == planned.skip(1)[j] by {
                assert(views(self.tasks@)[start + j] == (before + planned)[start + j]);
            }
        }
        Ok(children)
    }

    /// Marks the first task with the given identifier as completed. Where no
    /// task has it, nothing changes and the error names the identifier.
    pub fn complete_task(&mut self, task_id: &str) -> (r: Result<(), String>)
        requires
            old(self).wf(),
        ensures
            final(self).wf(),
            final(self)@.teams == old(self)@.teams,
            ({
                let tasks = old(self)@.tasks;
                let at = task_index(tasks, task_id@);
                if at < tasks.len() {
                    r is Ok && final(self)@.tasks == tasks.update(
                        at,
                        SwarmTaskView { status: SwarmTaskStatus::Completed, ..tasks[at] },
                    )
                } else {
                    r matches Err(e) && e@ == "task '"@ + task_id@ + "' not found"@
                        && final(self)@ == old(self)@
                }
            }),
    {
        let ghost before = views(self.tasks@);
        let at = self.find_task(task_id);
        if at >= self.tasks.len() {
            let mut message = "task '".to_string();
            message.append(task_id);
            message.append("' not found");
            return Err(message);
        }
        self.tasks[at].status = SwarmTaskStatus::Completed;
        proof {
            let done = SwarmTaskView { status: SwarmTaskStatus::Completed, ..before[at as int] };
            assert(self.tasks@[at as int]@ == done);
            assert(views(self.tasks@) =~= before.update(at as int, done));
            lemma_completion_keeps_numbering(before, at as int);
        }
        Ok(())
    }

    /// The tasks in the order of their creation: all of them, or the
    /// subtasks of one parent.
    pub fn list_tasks(&self, parent: Option<&str>) -> (tasks: Vec<&SwarmTask>)
        ensures
            views(tasks@) == listing(self@.tasks, option_text(parent)),
    {
        let ghost wanted = option_text(parent);
        let ghost keep = |t: SwarmTaskView| listed(t, wanted);
        let ghost all = views(self.tasks@);
        let mut found: Vec<&SwarmTask> = Vec::new();
        let mut i: usize = 0;
        proof {
            lemma_filter_empty(all.take(0), keep);
            assert(views(found@) =~= all.take(0).filter(keep));
        }
        while i < self.tasks.len()
            invariant
                i <= self.tasks.len(),
                all == views(self.tasks@),
                wanted == option_text(parent),
                keep == |t: SwarmTaskView| listed(t, wanted),
                views(found@) == all.take(i as int).filter(keep),
            decreases self.tasks.len() - i,
        {
            let task = &self.tasks[i];
            let take = match parent {
                Some(p) => match &task.parent_task {
                    Some(q) => q.as_str().eq(p),
                    None => false,
                },
                None => true,
            };
            proof {
                lemma_filter_step(all, keep, i as int);
                assert(take == keep(all[i as int]));
            }
            if take {
                let ghost so_far = views(found@);
                found.push(task);
                assert(views(found@) =~= so_far.push(all[i as int]));
            }
            i += 1;
        }
        assert(all.take(i as int) =~= all);
        found
    }

    /// Says whether the fan-out under the given parent is complete: whether
    /// it has a subtask and all its subtasks are completed.
    pub fn is_fan_out_complete(&self, parent_id: &str) -> (complete: bool)
        ensures
            complete == fan_out_complete(self@.tasks, parent_id@),
    {
        let ghost all = views(self.tasks@);
        let mut any = false;
        let mut i: usize = 0;
        while i < self.tasks.len()
            invariant
                i <= self.tasks.len(),
                all == views(self.tasks@),
                any == exists|j: int| 0 <= j < i && child_of(#[trigger] all[j], parent_id@),
                forall|j: int|
                    0 <= j < i && child_of(#[trigger] all[j], parent_id@) ==> all[j].status
                        == SwarmTaskStatus::Completed,
            decreases self.tasks.len() - i,
        {
            let task = &self.tasks[i];
            let is_child = match &task.parent_task {
                Some(q) => q.as_str().eq(parent_id),
                None => false,
            };
            assert(is_child == child_of(all[i as int], parent_id@));
            if is_child {
                if task.status != SwarmTaskStatus::Completed {
                    return false;
                }
                any = true;
            }
            i += 1;
        }
        any
    }
}

impl Default for SwarmCoordinator {
    fn default() -> (c: Self)
        ensures
            c.wf(),
            c@.teams.len() == 0,
            c@.tasks.len() == 0,
    {
        SwarmCoordinator::new()
    }
}

fn task_id_string(n: u64) -> (id: String)
    ensures
        id@ == task_id_of(n as nat),
{
    let mut id = "swarm-task-".to_string();
    let number = decimal_string(n);
    id.append(number.as_str());
    id
}

fn find_leader(members: &Vec<SwarmMember>) -> (at: usize)
    ensures
        at as int == leader_index(views(members@)),
        at <= members@.len(),
{
    let ghost all = views(members@);
    let ghost p = |m: SwarmMemberView| m.role == SwarmRole::Leader;
    let mut i: usize = 0;
    while i < members.len()
        invariant
            i <= members.len(),
            all == views(members@),
            p == |m: SwarmMemberView| m.role == SwarmRole::Leader,
            forall|j: int| 0 <= j < i ==> !p(#[trigger] all[j]),
        decreases members.len() - i,
    {
        if members[i].role == SwarmRole::Leader {
            proof {
                assert(p(all[i as int]));
                lemma_first_where_is(all, p, i as int);
            }
            return i;
        }
        i += 1;
    }
    proof {
        lemma_first_where_is(all, p, i as int);
    }
    i
}

fn eligible_indices(members: &Vec<SwarmMember>) -> (found: Vec<usize>)
    ensures
        found@.len() == workers_of(views(members@)).len(),
        forall|k: int|
            0 <= k < found@.len() ==> found@[k] < members@.len() && views(members@)[
                #[trigger] found@[k] as int] == workers_of(views(members@))[k],
{
    let ghost all = views(members@);
    let ghost p = |m: SwarmMemberView| eligible(m);
    let mut found: Vec<usize> = Vec::new();
    let mut i: usize = 0;
    proof {
        lemma_filter_empty(all.take(0), p);
    }
    while i < members.len()
        invariant
            i <= members.len(),
            all == views(members@),
            p == |m: SwarmMemberView| eligible(m),
            found@.len() == all.take(i as int).filter(p).len(),
            forall|k: int|
                0 <= k < found@.len() ==> found@[k] < i && all[#[trigger] found@[k] as int]
                    == all.take(i as int).filter(p)[k],
        decreases members.len() - i,
    {
        proof {
            lemma_filter_step(all, p, i as int);
        }
        let role = members[i].role;
        if role == SwarmRole::Leader || role == SwarmRole::Worker {
            found.push(i);
        }
        i += 1;
    }
    assert(all.take(i as int) =~= all);
    found
}

/// The tasks of a fan-out continue the numbering of the tasks before them.
pub proof fn lemma_planned_numbered(
    tasks: Seq<SwarmTaskView>,
    members: Seq<SwarmMemberView>,
    description: Seq<char>,
    subtasks: Seq<Seq<char>>,
)
    requires
        numbered(tasks),
    ensures
        numbered(tasks + planned_tasks(members, tasks.len(), description, subtasks)),
{
    let n = tasks.len();
    let planned = planned_tasks(members, n, description, subtasks);
    let all = tasks + planned;
    assert forall|i: int| 0 <= i < all.len() implies {
        &&& (#[trigger] all[i]).id == task_id_of(i as nat)
        &&& all[i].parent_task matches Some(p) ==> exists|j: int|
            0 <= j < i && (#[trigger] all[j]).id == p
    } by {
        if i < n {
            assert(all[i] == tasks[i]);
            if let Some(p) = all[i].parent_task {
                let j = choose|j: int| 0 <= j < i && (#[trigger] tasks[j]).id == p;
                assert(all[j].id == p);
            }
        } else if i == n {
            assert(all[i] == planned[0]);
        } else {
            assert(all[i] == planned[i - n]);
            assert(all[n as int] == planned[0]);
            assert(all[n as int].id == task_id_of(n));
        }
    }
}

/// Completing a task leaves the numbering as it is.
pub proof fn lemma_completion_keeps_numbering(tasks: Seq<SwarmTaskView>, at: int)
    requires
        numbered(tasks),
        0 <= at < tasks.len(),
    ensures
        numbered(
            tasks.update(at, SwarmTaskView { status: SwarmTaskStatus::Completed, ..tasks[at] }),
        ),
{
    let after = tasks.update(
        at,
        SwarmTaskView { status: SwarmTaskStatus::Completed, ..tasks[at] },
    );
    assert forall|i: int| 0 <= i < after.len() implies {
        &&& (#[trigger] after[i]).id == task_id_of(i as nat)
        &&& after[i].parent_task matches Some(p) ==> exists|j: int|
            0 <= j < i && (#[trigger] after[j]).id == p
    } by {
        assert(after[i].id == tasks[i].id);
        assert(after[i].parent_task == tasks[i].parent_task);
        if let Some(p) = tasks[i].parent_task {
            let j = choose|j: int| 0 <= j < i && (#[trigger] tasks[j]).id == p;
            assert(after[j].id == p);
        }
    }
}

/// No two tasks of a coordinator share an identifier.
pub proof fn lemma_task_ids_unique(tasks: Seq<SwarmTaskView>, i: int, j: int)
    requires
        numbered(tasks),
        0 <= i < tasks.len(),
        0 <= j < tasks.len(),
        tasks[i].id == tasks[j].id,
    ensures
        i == j,
{
    lemma_task_id_injective(i as nat, j as nat);
}

/// Right after a fan-out its parent is not complete: the subtasks are
/// pending, and with no subtask there is nothing to complete.
pub proof fn lemma_fresh_fan_out_incomplete(
    tasks: Seq<SwarmTaskView>,
    members: Seq<SwarmMemberView>,
    description: Seq<char>,
    subtasks: Seq<Seq<char>>,
)
    requires
        numbered(tasks),
    ensures
        !fan_out_complete(
            tasks + planned_tasks(members, tasks.len(), description, subtasks),
            task_id_of(tasks.len()),
        ),
{
    let n = tasks.len();
    let parent = task_id_of(n);
    let planned = planned_tasks(members, n, description, subtasks);
    let all = tasks + planned;
    if subtasks.len() > 0 {
        assert(all[(n + 1) as int] == planned[1]);
        assert(child_of(all[(n + 1) as int], parent));
    } else {
        assert forall|i: int| 0 <= i < all.len() implies !child_of(#[trigger] all[i], parent) by {
            if i < n {
                assert(all[i] == tasks[i]);
                if tasks[i].parent_task == Some(parent) {
                    let j = choose|j: int| 0 <= j < i && (#[trigger] tasks[j]).id == parent;
                    lemma_task_id_injective(j as nat, n);
                }
            } else {
                assert(all[i] == planned[0]);
            }
        }
    }
}

/// A complete fan-out has a subtask, and each of its subtasks is completed:
/// a parent without subtasks is never complete, and one pending subtask
/// keeps it incomplete.
pub proof fn lemma_complete_needs_every_child(tasks: Seq<SwarmTaskView>, parent: Seq<char>)
    requires
        fan_out_complete(tasks, parent),
    ensures
        tasks.filter(|t: SwarmTaskView| child_of(t, parent)).len() > 0,
        forall|i: int|
            0 <= i < tasks.len() && child_of(#[trigger] tasks[i], parent) ==> tasks[i].status
                == SwarmTaskStatus::Completed,
{
    let p = |t: SwarmTaskView| child_of(t, parent);
    let i = choose|i: int| 0 <= i < tasks.len() && child_of(#[trigger] tasks[i], parent);
    assert(p(tasks[i]));
    tasks.lemma_filter_contains(p, i);
}

} // verus!
