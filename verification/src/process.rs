//! The process manager: what is decided when runtimes run as local
//! processes.
//!
//! The manager itself touches no file and no process. It says which
//! execution mode applies, how the files of a runtime are named, what is
//! recorded of a started process, which step comes next when a process is
//! stopped, and how the recorded processes and the tail of a log are
//! presented. The caller reads, writes, signals and sleeps as told.

use vstd::prelude::*;
use vstd::string::*;
use crate::seqs::{first_where, lemma_first_where_is, views};
use crate::text::{chars_of, lemma_lex_le_total, lemma_lex_le_transitive, lex_le, str_le};

verus! {

/// How a runtime is run.
#[derive(Debug, Clone, Copy, PartialEq, Eq, Structural)]
pub enum ExecutionMode {
    Docker,
    Direct,
    Auto,
}

/// The record of a process that was started directly.
#[derive(Debug)]
pub struct ProcessInfo {
    pub runtime: String,
    pub pid: u32,
    pub started_at_unix_ms: u64,
    pub mode: ExecutionMode,
    pub log_path: String,
}

impl Clone for ProcessInfo {
    fn clone(&self) -> (copy: Self)
        ensures
            copy == *self,
    {
        ProcessInfo {
            runtime: self.runtime.clone(),
            pid: self.pid,
            started_at_unix_ms: self.started_at_unix_ms,
            mode: self.mode,
            log_path: self.log_path.clone(),
        }
    }
}

/// What is reported of a recorded process.
#[derive(Debug)]
pub struct RuntimeProcessStatus {
    pub runtime: String,
    pub pid: Option<u32>,
    pub running: bool,
    pub mode: ExecutionMode,
    pub log_path: String,
}

/// A report in mathematical terms.
pub struct RuntimeProcessStatusView {
    pub runtime: Seq<char>,
    pub pid: Option<u32>,
    pub running: bool,
    pub mode: ExecutionMode,
    pub log_path: Seq<char>,
}

impl View for RuntimeProcessStatus {
    type V = RuntimeProcessStatusView;

    open spec fn view(&self) -> RuntimeProcessStatusView {
        RuntimeProcessStatusView {
            runtime: self.runtime@,
            pid: self.pid,
            running: self.running,
            mode: self.mode,
            log_path: self.log_path@,
        }
    }
}

/// A record as it was found: the runtime that the name of the record file
/// gives, the record, and whether its process was alive when probed.
#[derive(Debug)]
pub struct ProcessProbe {
    pub runtime: String,
    pub info: ProcessInfo,
    pub running: bool,
}

/// The files of a runtime that is about to be started: the names of its
/// log file and of its record file, each within its directory.
#[derive(Debug)]
pub struct LaunchPlan {
    pub log_file: String,
    pub pid_file: String,
}

/// The mode that applies: direct where Docker is ruled out; for `Auto`,
/// Docker where it is available and direct where not; else the mode that
/// was configured.
pub open spec fn resolved_mode(
    configured: ExecutionMode,
    force_no_docker: bool,
    docker_available: bool,
) -> ExecutionMode {
    if force_no_docker {
        ExecutionMode::Direct
    } else if configured == ExecutionMode::Auto {
        if docker_available {
            ExecutionMode::Docker
        } else {
            ExecutionMode::Direct
        }
    } else {
        configured
    }
}

/// The configured mode and the directories of the manager: one for the
/// records of processes, one for their logs.
pub struct ProcessManager {
    mode: ExecutionMode,
    state_dir: String,
    log_dir: String,
}

impl ProcessManager {
    /// The configured mode.
    pub closed spec fn spec_mode(&self) -> ExecutionMode {
        self.mode
    }

    /// The directory of the records.
    pub closed spec fn spec_state_dir(&self) -> Seq<char> {
        self.state_dir@
    }

    /// The directory of the logs.
    pub closed spec fn spec_log_dir(&self) -> Seq<char> {
        self.log_dir@
    }

    /// A manager for the given mode and directories.
    pub fn new(mode: ExecutionMode, state_dir: String, log_dir: String) -> (manager: Self)
        ensures
            manager.spec_mode() == mode,
            manager.spec_state_dir() == state_dir@,
            manager.spec_log_dir() == log_dir@,
    {
        ProcessManager { mode, state_dir, log_dir }
    }

    /// The directory of the records.
    pub fn state_dir(&self) -> (dir: &str)
        ensures
            dir@ == self.spec_state_dir(),
    {
        self.state_dir.as_str()
    }

    /// The directory of the logs.
    pub fn log_dir(&self) -> (dir: &str)
        ensures
            dir@ == self.spec_log_dir(),
    {
        self.log_dir.as_str()
    }

    /// Says whether the mode can only be resolved once it is known if
    /// Docker is available: for `Auto`, unless Docker is ruled out.
    pub fn needs_docker_probe(&self, force_no_docker: bool) -> (needed: bool)
        ensures
            needed == (!force_no_docker && self.spec_mode() == ExecutionMode::Auto),
            !needed ==> resolved_mode(self.spec_mode(), force_no_docker, true) == resolved_mode(
                self.spec_mode(),
                force_no_docker,
                false,
            ),
    {
        !force_no_docker && self.mode == ExecutionMode::Auto
    }

    /// The mode that applies, given whether Docker is available.
    pub fn resolve_mode(&self, force_no_docker: bool, docker_available: bool) -> (mode:
        ExecutionMode)
        ensures
            mode == resolved_mode(self.spec_mode(), force_no_docker, docker_available),
    {
        if force_no_docker {
            return ExecutionMode::Direct;
        }
        match self.mode {
            ExecutionMode::Auto => {
                if docker_available {
                    ExecutionMode::Docker
                } else {
                    ExecutionMode::Direct
                }
            },
            explicit => explicit,
        }
    }

    /// The name of the record file of a runtime, within the directory of
    /// the records.
    pub fn pid_file(&self, runtime: &str) -> (name: String)
        ensures
            name@ == runtime@ + ".pid"@,
    {
        let mut name = runtime.to_string();
        name.append(".pid");
        name
    }

    /// The name of the log file of a runtime, within the directory of the
    /// logs.
    pub fn log_file(&self, runtime: &str) -> (name: String)
        ensures
            name@ == runtime@ + ".log"@,
    {
        let mut name = runtime.to_string();
        name.append(".log");
        name
    }

    /// Plans the direct start of a runtime. A start is refused at once
    /// where the executable does not exist; else the plan names the files
    /// that the start writes.
    pub fn plan_start(&self, runtime: &str, executable: &str, executable_exists: bool) -> (r:
        Result<LaunchPlan, String>)
        ensures
            executable_exists ==> (r matches Ok(plan) && plan.log_file@ == runtime@ + ".log"@
                && plan.pid_file@ == runtime@ + ".pid"@),
            !executable_exists ==> (r matches Err(e) && e@ == "runtime executable not found: "@
                + executable@),
    {
        if !executable_exists {
            let mut message = "runtime executable not found: ".to_string();
            message.append(executable);
            return Err(message);
        }
        Ok(LaunchPlan { log_file: self.log_file(runtime), pid_file: self.pid_file(runtime) })
    }

    /// The record of a process that was just started directly. It takes
    /// the place of any earlier record of the runtime.
    pub fn direct_record(
        &self,
        runtime: &str,
        pid: u32,
        started_at_unix_ms: u64,
        log_path: String,
    ) -> (info: ProcessInfo)
        ensures
            info.runtime@ == runtime@,
            info.pid == pid,
            info.started_at_unix_ms == started_at_unix_ms,
            info.mode == ExecutionMode::Direct,
            info.log_path == log_path,
    {
        ProcessInfo {
            runtime: runtime.to_string(),
            pid,
            started_at_unix_ms,
            mode: ExecutionMode::Direct,
            log_path,
        }
    }
}

/// The number of times a process is probed after the graceful signal.
pub const MAX_POLLS: u32 = 20;

/// The milliseconds between two probes.
pub const POLL_INTERVAL_MS: u64 = 100;

/// Where the stopping of a runtime stands.
#[derive(Debug, Clone, Copy, PartialEq, Eq, Structural)]
pub enum StopState {
    /// The record of the runtime is being looked up.
    Lookup,
    /// The graceful signal is being sent.
    Terminating { pid: u32 },
    /// The process is being probed, after `polls` probes found it alive.
    Polling { pid: u32, polls: u32 },
    /// The caller sleeps, after `polls` probes found the process alive.
    Waiting { pid: u32, polls: u32 },
    /// The forceful signal is being sent.
    Killing { pid: u32 },
    /// The record is being removed.
    Removing,
    /// Nothing is left to do.
    Done,
}

/// What the caller reports back after it has done as told.
#[derive(Debug, Clone, Copy, PartialEq, Eq, Structural)]
pub enum StopEvent {
    /// The record was looked up: the process id in it, or nothing where the
    /// runtime has no record.
    RecordRead(Option<u32>),
    /// A signal was sent, or could not be sent: signals are best effort.
    SignalSent,
    /// The process was probed and found alive or gone.
    Probed(bool),
    /// The sleep is over.
    Slept,
    /// The record is removed.
    RecordRemoved,
}

/// What the caller is told to do next.
#[derive(Debug, Clone, Copy, PartialEq, Eq, Structural)]
pub enum StopAction {
    /// Send the graceful termination signal to the process.
    SendTerm(u32),
    /// Probe whether the process is alive.
    Probe(u32),
    /// Sleep for the given milliseconds.
    Sleep(u64),
    /// Send the forceful kill signal to the process.
    SendKill(u32),
    /// Remove the record of the runtime.
    RemoveRecord,
    /// Return with success.
    Finish,
}

/// The step that follows a report in a state, or nothing where the report
/// does not belong to the state.
///
/// Without a record the stop succeeds at once. With one, the process gets
/// the graceful signal and is probed up to `MAX_POLLS` times, with a sleep
/// after every probe that finds it alive. A process that is gone ends the
/// probing; one that outlives it gets the forceful signal. The record is
/// removed either way.
pub open spec fn stop_next(state: StopState, event: StopEvent) -> Option<(StopState, StopAction)> {
    match (state, event) {
        (StopState::Lookup, StopEvent::RecordRead(None)) => Some(
            (StopState::Done, StopAction::Finish),
        ),
        (StopState::Lookup, StopEvent::RecordRead(Some(pid))) => Some(
            (StopState::Terminating { pid }, StopAction::SendTerm(pid)),
        ),
        (StopState::Terminating { pid }, StopEvent::SignalSent) => Some(
            (StopState::Polling { pid, polls: 0 }, StopAction::Probe(pid)),
        ),
        (StopState::Polling { pid, polls }, StopEvent::Probed(alive)) => if !alive {
            Some((StopState::Removing, StopAction::RemoveRecord))
        } else if polls < MAX_POLLS {
            Some(
                (
                    StopState::Waiting { pid, polls: (polls + 1) as u32 },
                    StopAction::Sleep(POLL_INTERVAL_MS),
                ),
            )
        } else {
            None
        },
        (StopState::Waiting { pid, polls }, StopEvent::Slept) => if polls < MAX_POLLS {
            Some((StopState::Polling { pid, polls }, StopAction::Probe(pid)))
        } else {
            Some((StopState::Killing { pid }, StopAction::SendKill(pid)))
        },
        (StopState::Killing { pid }, StopEvent::SignalSent) => Some(
            (StopState::Removing, StopAction::RemoveRecord),
        ),
        (StopState::Removing, StopEvent::RecordRemoved) => Some(
            (StopState::Done, StopAction::Finish),
        ),
        _ => None,
    }
}

/// The states that a stop can reach: a probe is never made after
/// `MAX_POLLS` probes found the process alive.
pub open spec fn stop_reachable(state: StopState) -> bool {
    match state {
        StopState::Polling { pid, polls } => polls < MAX_POLLS,
        StopState::Waiting { pid, polls } => 1 <= polls <= MAX_POLLS,
        _ => true,
    }
}

/// An upper bound on the steps that are left in a state.
pub open spec fn stop_steps_left(state: StopState) -> nat {
    match state {
        StopState::Lookup => 45,
        StopState::Terminating { pid } => 44,
        StopState::Polling { pid, polls } => (43 - 2 * polls) as nat,
        StopState::Waiting { pid, polls } => (44 - 2 * polls) as nat,
        StopState::Killing { pid } => 2,
        StopState::Removing => 1,
        StopState::Done => 0,
    }
}

/// Whether an action sends a signal to a process.
pub open spec fn is_signal(action: StopAction) -> bool {
    action is SendTerm || action is SendKill
}

/// The state in which a stop begins. The caller looks the record up first.
pub fn stop_begin() -> (state: StopState)
    ensures
        state == StopState::Lookup,
{
    StopState::Lookup
}

/// The step that follows a report in a state.
pub fn stop_step(state: StopState, event: StopEvent) -> (next: Option<(StopState, StopAction)>)
    ensures
        next == stop_next(state, event),
{
    match state {
        StopState::Lookup => match event {
            StopEvent::RecordRead(None) => Some((StopState::Done, StopAction::Finish)),
            StopEvent::RecordRead(Some(pid)) => Some(
                (StopState::Terminating { pid }, StopAction::SendTerm(pid)),
            ),
            _ => None,
        },
        StopState::Terminating { pid } => match event {
            StopEvent::SignalSent => Some(
                (StopState::Polling { pid, polls: 0 }, StopAction::Probe(pid)),
            ),
            _ => None,
        },
        StopState::Polling { pid, polls } => match event {
            StopEvent::Probed(alive) => {
                if !alive {
                    Some((StopState::Removing, StopAction::RemoveRecord))
                } else if polls < MAX_POLLS {
                    Some(
                        (
                            StopState::Waiting { pid, polls: polls + 1 },
                            StopAction::Sleep(POLL_INTERVAL_MS),
                        ),
                    )
                } else {
                    None
                }
            },
            _ => None,
        },
        StopState::Waiting { pid, polls } => match event {
            StopEvent::Slept => {
                if polls < MAX_POLLS {
                    Some((StopState::Polling { pid, polls }, StopAction::Probe(pid)))
                } else {
                    Some((StopState::Killing { pid }, StopAction::SendKill(pid)))
                }
            },
            _ => None,
        },
        StopState::Killing { pid } => match event {
            StopEvent::SignalSent => Some((StopState::Removing, StopAction::RemoveRecord)),
            _ => None,
        },
        StopState::Removing => match event {
            StopEvent::RecordRemoved => Some((StopState::Done, StopAction::Finish)),
            _ => None,
        },
        StopState::Done => None,
    }
}

/// The report that answers an action.
pub open spec fn answers(action: StopAction, event: StopEvent) -> bool {
    match action {
        StopAction::SendTerm(pid) => event is SignalSent,
        StopAction::Probe(pid) => event is Probed,
        StopAction::Sleep(ms) => event is Slept,
        StopAction::SendKill(pid) => event is SignalSent,
        StopAction::RemoveRecord => event is RecordRemoved,
        StopAction::Finish => false,
    }
}

/// Stopping a runtime that has no record succeeds at once: the first step
/// is the last, and it sends no signal.
pub proof fn lemma_stop_without_record()
    ensures
        stop_next(StopState::Lookup, StopEvent::RecordRead(None)) == Some(
            (StopState::Done, StopAction::Finish),
        ),
        !is_signal(StopAction::Finish),
{
}

/// A stop goes on until it is done: in a reachable state, the report that
/// answers the last action leads to a step, the step leads to a reachable
/// state, and fewer steps are left after it.
pub proof fn lemma_stop_progress(
    before: StopState,
    told: StopAction,
    first: StopEvent,
    event: StopEvent,
)
    requires
        stop_reachable(before),
        stop_next(before, first) matches Some((state, action)) && action == told && answers(
            told,
            event,
        ),
    ensures
        stop_next(before, first) matches Some((state, action)) && stop_reachable(state) && (
        stop_next(state, event) matches Some((after, then)) && stop_reachable(after)
            && stop_steps_left(after) < stop_steps_left(state)),
{
}

/// The forceful signal is sent only to a process that `MAX_POLLS` probes
/// found alive, each followed by a sleep.
pub proof fn lemma_kill_only_after_polls(state: StopState, event: StopEvent)
    requires
        stop_next(state, event) matches Some((after, action)) && action is SendKill,
    ensures
        state matches StopState::Waiting { pid, polls } && polls >= MAX_POLLS,
{
}

/// A stop finishes only without a record or after the record is removed.
pub proof fn lemma_finish_after_removal(state: StopState, event: StopEvent)
    requires
        stop_next(state, event) matches Some((after, action)) && action is Finish,
    ensures
        (state is Lookup && event == StopEvent::RecordRead(None)) || (state is Removing && event
            is RecordRemoved),
{
}

/// The place of the last dot in a file name, or -1 where it has none.
pub open spec fn last_dot(name: Seq<char>) -> int
    decreases name.len(),
{
    if name.len() == 0 {
        -1
    } else if name.last() == '.' {
        name.len() - 1
    } else {
        last_dot(name.drop_last())
    }
}

/// The runtime of which a file in the directory of the records is the
/// record: the name before the last dot, where that dot is not the first
/// character and `pid` follows it. Other files are no records.
pub open spec fn record_runtime_of(file_name: Seq<char>) -> Option<Seq<char>> {
    let dot = last_dot(file_name);
    if dot > 0 && file_name.skip(dot + 1) == seq!['p', 'i', 'd'] {
        Some(file_name.take(dot))
    } else {
        None
    }
}

proof fn lemma_last_dot_is(name: Seq<char>, at: int)
    requires
        -1 <= at < name.len(),
        at >= 0 ==> name[at] == '.',
        forall|j: int| at < j < name.len() ==> name[j] != '.',
    ensures
        last_dot(name) == at,
    decreases name.len(),
{
    if name.len() > 0 && at < name.len() - 1 {
        assert(name.last() != '.');
        let head = name.drop_last();
        assert forall|j: int| at < j < head.len() implies head[j] != '.' by {
            assert(head[j] == name[j]);
        }
        lemma_last_dot_is(head, at);
    }
}

/// The runtime of which a file in the directory of the records is the
/// record, if it is one.
pub fn record_runtime(file_name: &str) -> (runtime: Option<String>)
    ensures
        match runtime {
            Some(r) => record_runtime_of(file_name@) == Some(r@),
            None => record_runtime_of(file_name@) is None,
        },
{
    let name = chars_of(file_name);
    let mut k: usize = name.len();
    while k > 0 && name[k - 1] != '.'
        invariant
            k <= name.len(),
            forall|j: int| k <= j < name.len() ==> name@[j] != '.',
        decreases k,
    {
        k -= 1;
    }
    proof {
        lemma_last_dot_is(name@, k as int - 1);
    }
    if k < 2 {
        return None;
    }
    let dot = k - 1;
    let is_pid = name.len() - k == 3 && name[k] == 'p' && name[k + 1] == 'i' && name[k + 2] == 'd';
    if !is_pid {
        assert(name@.skip(dot + 1) != seq!['p', 'i', 'd']) by {
            let rest = name@.skip(dot + 1);
            if rest.len() == 3 {
                assert(rest[0] == name@[k as int]);
                assert(rest[1] == name@[k + 1]);
                assert(rest[2] == name@[k + 2]);
            }
        }
        return None;
    }
    assert(name@.skip(dot + 1) =~= seq!['p', 'i', 'd']);
    let mut stem = String::new();
    let mut i: usize = 0;
    while i < dot
        invariant
            i <= dot,
            dot < name.len(),
            stem@ == name@.take(i as int),
        decreases dot - i,
    {
        stem.push(name[i]);
        assert(name@.take(i + 1) =~= name@.take(i as int).push(name@[i as int]));
        i += 1;
    }
    Some(stem)
}

/// What is reported of a record as it was found.
pub open spec fn status_of_probe(probe: ProcessProbe) -> RuntimeProcessStatusView {
    RuntimeProcessStatusView {
        runtime: probe.runtime@,
        pid: Some(probe.info.pid),
        running: probe.running,
        mode: probe.info.mode,
        log_path: probe.info.log_path@,
    }
}

/// A report put into a list that is ordered by runtime: behind the last
/// report whose runtime comes no later than its own.
pub open spec fn with_status(
    ordered: Seq<RuntimeProcessStatusView>,
    status: RuntimeProcessStatusView,
) -> Seq<RuntimeProcessStatusView>
    decreases ordered.len(),
{
    if ordered.len() == 0 {
        seq![status]
    } else if lex_le(ordered.last().runtime, status.runtime) {
        ordered.push(status)
    } else {
        with_status(ordered.drop_last(), status).push(ordered.last())
    }
}

/// The reports of the first `n` probes, ordered by the name of the runtime.
/// Reports of the same runtime keep the order of their probes.
pub open spec fn statuses_upto(probes: Seq<ProcessProbe>, n: int) -> Seq<RuntimeProcessStatusView>
    decreases n,
{
    if n <= 0 {
        Seq::empty()
    } else {
        with_status(statuses_upto(probes, n - 1), status_of_probe(probes[n - 1]))
    }
}

/// Whether reports are in the order of the names of their runtimes.
pub open spec fn ordered_by_runtime(statuses: Seq<RuntimeProcessStatusView>) -> bool {
    forall|i: int, j: int|
        0 <= i < j < statuses.len() ==> lex_le(
            (#[trigger] statuses[i]).runtime,
            (#[trigger] statuses[j]).runtime,
        )
}

/// Putting a report into an ordered list at the place found from the end
/// is what `with_status` does.
proof fn lemma_with_status_at(
    ordered: Seq<RuntimeProcessStatusView>,
    status: RuntimeProcessStatusView,
    at: int,
)
    requires
        0 <= at <= ordered.len(),
        at > 0 ==> lex_le(ordered[at - 1].runtime, status.runtime),
        forall|j: int| at <= j < ordered.len() ==> !lex_le(ordered[j].runtime, status.runtime),
    ensures
        with_status(ordered, status) == ordered.insert(at, status),
    decreases ordered.len(),
{
    if ordered.len() == 0 {
        assert(ordered.insert(at, status) =~= seq![status]);
    } else if at == ordered.len() {
        assert(ordered.insert(at, status) =~= ordered.push(status));
    } else {
        let head = ordered.drop_last();
        assert(!lex_le(ordered[ordered.len() - 1].runtime, status.runtime));
        assert forall|j: int| at <= j < head.len() implies !lex_le(
            head[j].runtime,
            status.runtime,
        ) by {
            assert(head[j] == ordered[j]);
        }
        if at > 0 {
            assert(head[at - 1] == ordered[at - 1]);
        }
        lemma_with_status_at(head, status, at);
        assert(head.insert(at, status).push(ordered.last()) =~= ordered.insert(at, status));
    }
}

/// Putting a report into an ordered list, behind the last report whose
/// runtime comes no later than its own, leaves the list ordered.
proof fn lemma_insert_keeps_order(
    ordered: Seq<RuntimeProcessStatusView>,
    status: RuntimeProcessStatusView,
    at: int,
)
    requires
        ordered_by_runtime(ordered),
        0 <= at <= ordered.len(),
        at > 0 ==> lex_le(ordered[at - 1].runtime, status.runtime),
        forall|j: int| at <= j < ordered.len() ==> !lex_le(ordered[j].runtime, status.runtime),
    ensures
        ordered_by_runtime(ordered.insert(at, status)),
{
    let after = ordered.insert(at, status);
    assert forall|i: int, j: int| 0 <= i < j < after.len() implies lex_le(
        (#[trigger] after[i]).runtime,
        (#[trigger] after[j]).runtime,
    ) by {
        if j < at {
            assert(after[i] == ordered[i]);
            assert(after[j] == ordered[j]);
        } else if j == at {
            assert(after[i] == ordered[i]);
            if i < at - 1 {
                assert(lex_le(ordered[i].runtime, ordered[at - 1].runtime));
                lemma_lex_le_transitive(
                    ordered[i].runtime,
                    ordered[at - 1].runtime,
                    status.runtime,
                );
            }
        } else if i == at {
            assert(after[j] == ordered[j - 1]);
            lemma_lex_le_total(ordered[j - 1].runtime, status.runtime);
        } else if i > at {
            assert(after[i] == ordered[i - 1]);
            assert(after[j] == ordered[j - 1]);
        } else {
            assert(after[i] == ordered[i]);
            assert(after[j] == ordered[j - 1]);
        }
    }
}

/// Putting a report into a list adds the report and loses none.
pub proof fn lemma_with_status_keeps_all(
    ordered: Seq<RuntimeProcessStatusView>,
    status: RuntimeProcessStatusView,
)
    ensures
        with_status(ordered, status).to_multiset() == ordered.to_multiset().insert(status),
    decreases ordered.len(),
{
    broadcast use vstd::seq_lib::group_to_multiset_ensures;

    let after = with_status(ordered, status);
    if ordered.len() == 0 {
        assert(after =~= ordered.push(status));
    } else if lex_le(ordered.last().runtime, status.runtime) {
    } else {
        let head = ordered.drop_last();
        lemma_with_status_keeps_all(head, status);
        assert(ordered =~= head.push(ordered.last()));
        assert(after.to_multiset() =~= ordered.to_multiset().insert(status));
    }
}

/// Putting a report into a list makes the list longer by one.
pub proof fn lemma_with_status_len(
    ordered: Seq<RuntimeProcessStatusView>,
    status: RuntimeProcessStatusView,
)
    ensures
        with_status(ordered, status).len() == ordered.len() + 1,
    decreases ordered.len(),
{
    if ordered.len() > 0 && !lex_le(ordered.last().runtime, status.runtime) {
        lemma_with_status_len(ordered.drop_last(), status);
    }
}

/// The reports of probes are the reports of each probe, none lost and none
/// added.
pub proof fn lemma_statuses_complete(probes: Seq<ProcessProbe>, n: int)
    requires
        0 <= n <= probes.len(),
    ensures
        statuses_upto(probes, n).len() == n,
        statuses_upto(probes, n).to_multiset() == Seq::new(
            n as nat,
            |i: int| status_of_probe(probes[i]),
        ).to_multiset(),
    decreases n,
{
    broadcast use vstd::seq_lib::group_to_multiset_ensures;

    let reports = Seq::new(n as nat, |i: int| status_of_probe(probes[i]));
    if n > 0 {
        lemma_statuses_complete(probes, n - 1);
        lemma_with_status_keeps_all(statuses_upto(probes, n - 1), status_of_probe(probes[n - 1]));
        lemma_with_status_len(statuses_upto(probes, n - 1), status_of_probe(probes[n - 1]));
        let fewer = Seq::new((n - 1) as nat, |i: int| status_of_probe(probes[i]));
        assert(reports =~= fewer.push(status_of_probe(probes[n - 1])));
    } else {
        assert(reports =~= Seq::<RuntimeProcessStatusView>::empty());
    }
}

impl ProcessManager {
    /// The reports of the recorded processes, ordered by the name of the
    /// runtime. Each probe gives one report, with the liveness that was
    /// found when the process was probed.
    pub fn list_statuses(&self, probes: Vec<ProcessProbe>) -> (statuses: Vec<
        RuntimeProcessStatus,
    >)
        ensures
            views(statuses@) == statuses_upto(probes@, probes@.len() as int),
            ordered_by_runtime(views(statuses@)),
            statuses@.len() == probes@.len(),
    {
        let mut statuses: Vec<RuntimeProcessStatus> = Vec::new();
        let mut i: usize = 0;
        while i < probes.len()
            invariant
                i <= probes.len(),
                views(statuses@) == statuses_upto(probes@, i as int),
                ordered_by_runtime(views(statuses@)),
            decreases probes.len() - i,
        {
            let probe = &probes[i];
            let status = RuntimeProcessStatus {
                runtime: probe.runtime.clone(),
                pid: Some(probe.info.pid),
                running: probe.running,
                mode: probe.info.mode,
                log_path: probe.info.log_path.clone(),
            };
            assert(status@ == status_of_probe(probes@[i as int]));
            let ghost ordered = views(statuses@);
            let mut at: usize = statuses.len();
            while at > 0 && !str_le(statuses[at - 1].runtime.as_str(), status.runtime.as_str())
                invariant
                    at <= statuses.len(),
                    ordered == views(statuses@),
                    forall|j: int|
                        at <= j < ordered.len() ==> !lex_le(ordered[j].runtime, status@.runtime),
                decreases at,
            {
                at -= 1;
            }
            proof {
                lemma_with_status_at(ordered, status@, at as int);
                lemma_insert_keeps_order(ordered, status@, at as int);
            }
            let ghost added = status@;
            statuses.insert(at, status);
            assert(views(statuses@) =~= ordered.insert(at as int, added));
            i += 1;
        }
        proof {
            lemma_statuses_complete(probes@, probes@.len() as int);
        }
        statuses
    }
}

/// The line feeds among characters.
pub open spec fn is_line_feed() -> spec_fn(char) -> bool {
    |c: char| c == '\n'
}

/// A line without the carriage return that may end it.
pub open spec fn without_return(line: Seq<char>) -> Seq<char> {
    if line.len() > 0 && line.last() == '\r' {
        line.drop_last()
    } else {
        line
    }
}

/// The lines of a text. A line ends with a line feed, or with a carriage
/// return and a line feed; neither belongs to the line. What follows the
/// last line feed is a line of its own unless it is empty.
pub open spec fn lines_of(text: Seq<char>) -> Seq<Seq<char>>
    decreases text.len(),
{
    if text.len() == 0 {
        Seq::empty()
    } else {
        let end = first_where(text, is_line_feed());
        if 0 <= end < text.len() {
            seq![without_return(text.take(end))] + lines_of(text.skip(end + 1))
        } else {
            seq![text]
        }
    }
}

/// Lines put together again, with a line feed between one line and the
/// next.
pub open spec fn joined(lines: Seq<Seq<char>>) -> Seq<char>
    decreases lines.len(),
{
    if lines.len() == 0 {
        Seq::empty()
    } else if lines.len() == 1 {
        lines[0]
    } else {
        joined(lines.drop_last()) + seq!['\n'] + lines.last()
    }
}

/// The last `count` lines of a text, or all its lines where it has fewer.
pub open spec fn tail_of(text: Seq<char>, count: nat) -> Seq<char> {
    let rows = lines_of(text);
    if rows.len() > count {
        joined(rows.skip(rows.len() - count))
    } else {
        joined(rows)
    }
}

fn copy_range(chars: &Vec<char>, from: usize, to: usize) -> (part: Vec<char>)
    requires
        from <= to <= chars.len(),
    ensures
        part@ == chars@.subrange(from as int, to as int),
{
    let mut part: Vec<char> = Vec::new();
    let mut i: usize = from;
    while i < to
        invariant
            from <= i <= to,
            to <= chars.len(),
            part@ == chars@.subrange(from as int, i as int),
        decreases to - i,
    {
        part.push(chars[i]);
        assert(chars@.subrange(from as int, i + 1) =~= chars@.subrange(from as int, i as int).push(
            chars@[i as int],
        ));
        i += 1;
    }
    part
}

fn split_lines(chars: &Vec<char>) -> (rows: Vec<Vec<char>>)
    ensures
        views(rows@) == lines_of(chars@),
{
    let ghost text = chars@;
    let mut rows: Vec<Vec<char>> = Vec::new();
    let mut pos: usize = 0;
    assert(text.skip(0) =~= text);
    assert(views(rows@) + lines_of(text.skip(0)) =~= lines_of(text));
    while pos < chars.len()
        invariant
            pos <= chars.len(),
            text == chars@,
            views(rows@) + lines_of(text.skip(pos as int)) == lines_of(text),
        decreases chars.len() - pos,
    {
        let ghost rest = text.skip(pos as int);
        let ghost done = views(rows@);
        let mut end: usize = pos;
        while end < chars.len() && chars[end] != '\n'
            invariant
                pos <= end <= chars.len(),
                text == chars@,
                forall|j: int| pos <= j < end ==> text[j] != '\n',
            decreases chars.len() - end,
        {
            end += 1;
        }
        proof {
            let p = is_line_feed();
            assert forall|j: int| 0 <= j < end - pos implies !p(#[trigger] rest[j]) by {
                assert(rest[j] == text[pos + j]);
            }
            if end < chars.len() {
                assert(p(rest[end - pos]));
            }
            lemma_first_where_is(rest, p, end - pos);
        }
        if end < chars.len() {
            let mut stop: usize = end;
            if stop > pos && chars[stop - 1] == '\r' {
                stop -= 1;
            }
            let line = copy_range(chars, pos, stop);
            proof {
                let whole = rest.take(end - pos);
                assert(whole =~= text.subrange(pos as int, end as int));
                if whole.len() > 0 {
                    assert(whole.last() == text[end - 1]);
                }
                assert(line@ =~= without_return(whole));
                assert(rest.skip(end - pos + 1) =~= text.skip(end + 1));
            }
            rows.push(line);
            proof {
                assert(views(rows@) =~= done.push(without_return(rest.take(end - pos))));
                assert(views(rows@) + lines_of(text.skip(end + 1)) =~= done + lines_of(rest));
            }
            pos = end + 1;
        } else {
            let line = copy_range(chars, pos, end);
            proof {
                assert(line@ =~= rest);
                assert(text.skip(end as int).len() == 0);
            }
            rows.push(line);
            proof {
                assert(views(rows@) =~= done.push(rest));
                assert(views(rows@) + lines_of(text.skip(end as int)) =~= done + lines_of(rest));
            }
            pos = end;
        }
    }
    assert(views(rows@) + lines_of(text.skip(pos as int)) =~= views(rows@));
    rows
}

impl ProcessManager {
    /// The last `lines` lines of the log of a runtime, given the content of
    /// its log file. A runtime without a log file has an empty tail.
    pub fn tail_logs(&self, content: Option<&str>, lines: usize) -> (tail: String)
        ensures
            match content {
                Some(text) => tail@ == tail_of(text@, lines as nat),
                None => tail@.len() == 0,
            },
    {
        let mut tail = String::new();
        let text = match content {
            Some(text) => text,
            None => {
                return tail;
            },
        };
        let chars = chars_of(text);
        let rows = split_lines(&chars);
        let start: usize = if rows.len() > lines {
            rows.len() - lines
        } else {
            0
        };
        let ghost all = views(rows@);
        let ghost kept = all.skip(start as int);
        let mut k: usize = start;
        assert(kept.take(0) =~= Seq::<Seq<char>>::empty());
        while k < rows.len()
            invariant
                start <= k <= rows.len(),
                all == views(rows@),
                kept == all.skip(start as int),
                tail@ == joined(kept.take(k - start)),
            decreases rows.len() - k,
        {
            let ghost before = tail@;
            if k > start {
                tail.push('\n');
            }
            let ghost base = tail@;
            let row = &rows[k];
            let mut m: usize = 0;
            while m < row.len()
                invariant
                    m <= row.len(),
                    tail@ == base + row@.take(m as int),
                decreases row.len() - m,
            {
                tail.push(row[m]);
                assert(row@.take(m + 1) =~= row@.take(m as int).push(row@[m as int]));
                assert(base + row@.take(m + 1) =~= (base + row@.take(m as int)).push(
                    row@[m as int],
                ));
                m += 1;
            }
            proof {
                assert(row@.take(m as int) =~= row@);
                let now = kept.take(k - start + 1);
                assert(now.drop_last() =~= kept.take(k - start));
                assert(now.last() == row@);
                if k == start {
                    assert(before =~= Seq::<char>::empty());
                    assert(tail@ =~= row@);
                } else {
                    assert(base =~= before + seq!['\n']);
                }
            }
            k += 1;
        }
        assert(kept.take(k - start) =~= kept);
        assert(all == lines_of(text@));
        assert(all.skip(0) =~= all);
        tail
    }
}

} // verus!
