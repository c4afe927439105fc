//! The decisions that stop the launcher before its catalog is rewritten,
//! start it again afterwards and confirm that it runs. The caller lists
//! processes, sends signals, sleeps and spawns; what to do next is decided here.

use vstd::prelude::*;
use vstd::string::*;
use crate::error::SyncError;

verus! {

/// The kinds of system on which the launcher runs.
#[derive(Debug, Clone, Copy, PartialEq, Eq, Structural)]
pub enum Platform {
    Windows,
    MacOS,
    Unix,
}

/// The name under which the launcher's process is listed on `platform`.
pub open spec fn process_name_of(platform: Platform) -> Seq<char> {
    match platform {
        Platform::Windows => "steam.exe"@,
        Platform::MacOS => "steam"@,
        Platform::Unix => "steam"@,
    }
}

/// The name under which the launcher's process is listed.
pub fn steam_process_name(platform: Platform) -> (name: &'static str)
    ensures
        name@ == process_name_of(platform),
{
    match platform {
        Platform::Windows => "steam.exe",
        Platform::MacOS => "steam",
        Platform::Unix => "steam",
    }
}

/// How far stopping has come.
#[derive(Debug, Clone, Copy, PartialEq, Eq, Structural)]
pub enum StopPhase {
    /// Nothing was done yet.
    Unknown,
    /// The processes are being listed.
    Listing,
    /// The first pending process was sent the quit and the kill signal.
    Signalling,
    /// The first pending process is being checked for life.
    Checking,
    /// The caller sleeps and signals the first pending process again.
    Resending,
    /// No process is left.
    Stopped,
}

/// What the caller is asked to do next while stopping.
#[derive(Debug, Clone, Copy, PartialEq, Eq, Structural)]
pub enum StopAction {
    /// List the running processes that bear the launcher's name.
    ListProcesses,
    /// Send the quit signal and then the kill signal to the process.
    SignalQuitKill { pid: u32 },
    /// Look whether the process is still alive.
    CheckAlive { pid: u32 },
    /// Sleep for so many nanoseconds, then send the terminate signal and the
    /// kill signal to the process.
    SleepThenSignalTermKill { pid: u32, sleep_nanos: u128 },
    /// Nothing runs any more: stopping has succeeded.
    Done,
}

/// What the caller reports back while stopping, as plain values.
pub enum StopEventModel {
    Begin,
    Listed { pids: Seq<u32> },
    Signalled { quit: Option<bool>, kill: Option<bool> },
    Checked { alive: bool },
    Resent,
}

/// What the caller reports back while stopping.
///
/// A signal's outcome is `Some(true)` where it was delivered, `Some(false)`
/// where it could not be, and `None` where the system has no such signal.
#[derive(Debug)]
pub enum StopEvent {
    /// Stopping is asked for.
    Begin,
    /// The processes that bear the launcher's name.
    Listed { pids: Vec<u32> },
    /// The outcomes of the quit and of the kill signal.
    Signalled { quit: Option<bool>, kill: Option<bool> },
    /// Whether the process was found alive.
    Checked { alive: bool },
    /// The caller has slept and sent the signals again.
    Resent,
}

impl View for StopEvent {
    type V = StopEventModel;

    open spec fn view(&self) -> StopEventModel {
        match *self {
            StopEvent::Begin => StopEventModel::Begin,
            StopEvent::Listed { pids } => StopEventModel::Listed { pids: pids@ },
            StopEvent::Signalled { quit, kill } => StopEventModel::Signalled { quit, kill },
            StopEvent::Checked { alive } => StopEventModel::Checked { alive },
            StopEvent::Resent => StopEventModel::Resent,
        }
    }
}

/// The state of stopping, as plain values: the phase, the processes not yet
/// known to be gone, the one being worked on first, and the pause between two
/// rounds of signals, in nanoseconds.
pub struct StopModel {
    pub phase: StopPhase,
    pub pending: Seq<u32>,
    pub pause_nanos: u128,
}

impl StopModel {
    /// The state before anything was done.
    pub open spec fn begin(pause_nanos: u128) -> StopModel {
        StopModel { phase: StopPhase::Unknown, pending: Seq::empty(), pause_nanos }
    }

    /// While a process is worked on there is a first pending process, and
    /// before and after the work none is pending.
    pub open spec fn wf(self) -> bool {
        match self.phase {
            StopPhase::Unknown | StopPhase::Listing | StopPhase::Stopped => self.pending.len() == 0,
            StopPhase::Signalling | StopPhase::Checking | StopPhase::Resending => self.pending.len()
                > 0,
        }
    }

    /// What the caller is waiting to do in this state.
    pub open spec fn pending_action(self) -> StopAction {
        match self.phase {
            StopPhase::Unknown | StopPhase::Listing => StopAction::ListProcesses,
            StopPhase::Signalling => StopAction::SignalQuitKill { pid: self.pending[0] },
            StopPhase::Checking => StopAction::CheckAlive { pid: self.pending[0] },
            StopPhase::Resending => StopAction::SleepThenSignalTermKill {
                pid: self.pending[0],
                sleep_nanos: self.pause_nanos,
            },
            StopPhase::Stopped => StopAction::Done,
        }
    }

    /// The state in which the processes of `pending` are worked on from the
    /// first: signalling it, or stopped where none is left.
    pub open spec fn work_on(self, pending: Seq<u32>) -> StopModel {
        if pending.len() == 0 {
            StopModel { phase: StopPhase::Stopped, pending, ..self }
        } else {
            StopModel { phase: StopPhase::Signalling, pending, ..self }
        }
    }

    /// The same state in another phase.
    pub open spec fn in_phase(self, phase: StopPhase) -> StopModel {
        StopModel { phase, ..self }
    }
}

/// Neither signal could be delivered: the process is gone already or is not
/// ours to stop.
pub open spec fn both_refused(quit: Option<bool>, kill: Option<bool>) -> bool {
    quit == Some(false) && kill == Some(false)
}

/// The state that follows `state` on `event`.
///
/// Listing leads to the first process; a process is signalled, then checked,
/// and while it lives the caller sleeps, signals again and checks again. A
/// process is left behind when neither of the first signals could be
/// delivered or when it is found dead. An event that the state does not
/// wait for changes nothing.
pub open spec fn stop_next(state: StopModel, event: StopEventModel) -> StopModel {
    match (state.phase, event) {
        (StopPhase::Unknown, StopEventModel::Begin) => state.in_phase(StopPhase::Listing),
        (StopPhase::Listing, StopEventModel::Listed { pids }) => state.work_on(pids),
        (StopPhase::Signalling, StopEventModel::Signalled { quit, kill }) => if both_refused(
            quit,
            kill,
        ) {
            state.work_on(state.pending.drop_first())
        } else {
            state.in_phase(StopPhase::Checking)
        },
        (StopPhase::Checking, StopEventModel::Checked { alive }) => if alive {
            state.in_phase(StopPhase::Resending)
        } else {
            state.work_on(state.pending.drop_first())
        },
        (StopPhase::Resending, StopEventModel::Resent) => state.in_phase(StopPhase::Checking),
        _ => state,
    }
}

/// Where stopping stands.
pub struct StopState {
    phase: StopPhase,
    pending: Vec<u32>,
    pause_nanos: u128,
}

impl View for StopState {
    type V = StopModel;

    closed spec fn view(&self) -> StopModel {
        StopModel { phase: self.phase, pending: self.pending@, pause_nanos: self.pause_nanos }
    }
}

impl StopState {
    #[verifier::type_invariant]
    spec fn well_formed(self) -> bool {
        self@.wf()
    }

    /// The state before anything was done. `pause_nanos` is how long the
    /// caller is to sleep before it signals a process again that is still
    /// alive, in nanoseconds.
    pub fn new(pause_nanos: u128) -> (state: Self)
        ensures
            state@ == StopModel::begin(pause_nanos),
    {
        StopState { phase: StopPhase::Unknown, pending: Vec::new(), pause_nanos }
    }

    /// How far stopping has come.
    pub fn phase(&self) -> (phase: StopPhase)
        ensures
            phase == self@.phase,
    {
        self.phase
    }

    /// How many processes are not yet known to be gone.
    pub fn pending_count(&self) -> (count: usize)
        ensures
            count == self@.pending.len(),
    {
        self.pending.len()
    }

    /// What the caller is to do in this state.
    pub fn action(&self) -> (action: StopAction)
        ensures
            self@.wf(),
            action == self@.pending_action(),
    {
        proof {
            use_type_invariant(self);
        }
        match self.phase {
            StopPhase::Unknown | StopPhase::Listing => StopAction::ListProcesses,
            StopPhase::Signalling => StopAction::SignalQuitKill { pid: self.pending[0] },
            StopPhase::Checking => StopAction::CheckAlive { pid: self.pending[0] },
            StopPhase::Resending => StopAction::SleepThenSignalTermKill {
                pid: self.pending[0],
                sleep_nanos: self.pause_nanos,
            },
            StopPhase::Stopped => StopAction::Done,
        }
    }

    /// The state in which `pending` is worked on from its first process.
    fn working_on(pending: Vec<u32>, pause_nanos: u128) -> (state: Self)
        ensures
            state@ == StopModel::begin(pause_nanos).work_on(pending@),
    {
        if pending.len() == 0 {
            StopState { phase: StopPhase::Stopped, pending, pause_nanos }
        } else {
            StopState { phase: StopPhase::Signalling, pending, pause_nanos }
        }
    }

    /// The state in which the first pending process is left behind.
    fn past_first(self) -> (state: Self)
        requires
            self@.pending.len() > 0,
        ensures
            state@ == self@.work_on(self@.pending.drop_first()),
    {
        let mut pending = self.pending;
        pending.remove(0);
        assert(pending@ =~= self@.pending.drop_first());
        Self::working_on(pending, self.pause_nanos)
    }

    /// The same state in another phase, one that fits what is pending.
    fn in_phase(self, phase: StopPhase) -> (state: Self)
        requires
            self@.in_phase(phase).wf(),
        ensures
            state@ == self@.in_phase(phase),
    {
        StopState { phase, pending: self.pending, pause_nanos: self.pause_nanos }
    }
}

/// Takes stopping one step on: from where it stands and what the caller
/// reports to where it stands next and what the caller is to do then.
pub fn ensure_steam_stopped(state: StopState, event: StopEvent) -> (next: (StopState, StopAction))
    ensures
        state@.wf(),
        next.0@ == stop_next(state@, event@),
        next.0@.wf(),
        next.1 == next.0@.pending_action(),
{
    proof {
        use_type_invariant(&state);
    }
    let next = match (state.phase, event) {
        (StopPhase::Unknown, StopEvent::Begin) => state.in_phase(StopPhase::Listing),
        (StopPhase::Listing, StopEvent::Listed { pids }) => StopState::working_on(
            pids,
            state.pause_nanos,
        ),
        (StopPhase::Signalling, StopEvent::Signalled { quit, kill }) => {
            if refused(quit) && refused(kill) {
                state.past_first()
            } else {
                state.in_phase(StopPhase::Checking)
            }
        },
        (StopPhase::Checking, StopEvent::Checked { alive }) => {
            if alive {
                state.in_phase(StopPhase::Resending)
            } else {
                state.past_first()
            }
        },
        (StopPhase::Resending, StopEvent::Resent) => state.in_phase(StopPhase::Checking),
        _ => state,
    };
    let action = next.action();
    (next, action)
}

/// Tells whether a signal could not be delivered.
fn refused(outcome: Option<bool>) -> (r: bool)
    ensures
        r == (outcome == Some(false)),
{
    match outcome {
        Some(delivered) => !delivered,
        None => false,
    }
}

/// Where stopping stands after the caller has reported `events` in turn.
pub open spec fn stop_run(state: StopModel, events: Seq<StopEventModel>) -> StopModel
    decreases events.len(),
{
    if events.len() == 0 {
        state
    } else {
        stop_next(stop_run(state, events.drop_last()), events.last())
    }
}

/// Every step keeps the state well formed.
pub proof fn lemma_stop_next_wf(state: StopModel, event: StopEventModel)
    requires
        state.wf(),
    ensures
        stop_next(state, event).wf(),
{
}

/// Whatever the caller reports, stopping stays well formed and keeps its pause.
pub proof fn lemma_stop_run_wf(state: StopModel, events: Seq<StopEventModel>)
    requires
        state.wf(),
    ensures
        stop_run(state, events).wf(),
        stop_run(state, events).pause_nanos == state.pause_nanos,
    decreases events.len(),
{
    if events.len() > 0 {
        lemma_stop_run_wf(state, events.drop_last());
    }
}

/// Where no process bears the launcher's name, stopping succeeds as soon as
/// the empty list is reported.
pub proof fn lemma_nothing_to_stop(pause_nanos: u128)
    ensures
        ({
            let begin = StopModel::begin(pause_nanos);
            let end = stop_run(
                begin,
                seq![StopEventModel::Begin, StopEventModel::Listed { pids: Seq::empty() }],
            );
            end.phase == StopPhase::Stopped && end.pending_action() == StopAction::Done
        }),
{
    let begin = StopModel::begin(pause_nanos);
    let events = seq![StopEventModel::Begin, StopEventModel::Listed { pids: Seq::<u32>::empty() }];
    assert(events.drop_last() =~= seq![StopEventModel::Begin]);
    assert(events.drop_last().drop_last() =~= Seq::<StopEventModel>::empty());
    reveal_with_fuel(stop_run, 3);
}

/// A process is only ever left behind when neither of its first signals could
/// be delivered or when it was found dead; no other step touches the pending
/// processes, but for the report of the list itself.
pub proof fn lemma_stop_leaves_only_confirmed(state: StopModel, event: StopEventModel)
    requires
        state.wf(),
    ensures
        ({
            let next = stop_next(state, event);
            &&& next.pause_nanos == state.pause_nanos
            &&& {
                ||| next.pending == state.pending
            ||| state.phase == StopPhase::Listing && event is Listed && next.pending == event->pids
            ||| {
                &&& next.pending == state.pending.drop_first()
                &&& state.phase == StopPhase::Signalling
                &&& event matches StopEventModel::Signalled { quit, kill }
                &&& both_refused(quit, kill)
            }
            ||| {
                &&& next.pending == state.pending.drop_first()
                &&& state.phase == StopPhase::Checking
                &&& event == (StopEventModel::Checked { alive: false })
            }
            }
        }),
{
}

/// Stopping is over only when no process is pending.
pub proof fn lemma_stopped_means_none_pending(state: StopModel)
    requires
        state.wf(),
    ensures
        state.pending_action() == StopAction::Done <==> state.phase == StopPhase::Stopped,
        state.phase == StopPhase::Stopped ==> state.pending.len() == 0,
{
}

/// A command that starts the launcher, as plain values.
pub struct CommandModel {
    pub program: Seq<char>,
    pub args: Seq<Seq<char>>,
}

/// A command that starts the launcher: the program and its arguments.
#[derive(Debug, PartialEq, Eq)]
pub struct LaunchCommand {
    pub program: String,
    pub args: Vec<String>,
}

impl Clone for LaunchCommand {
    fn clone(&self) -> (copy: Self)
        ensures
            copy@ == self@,
    {
        let args = self.args.clone();
        assert(args.deep_view() =~= self.args.deep_view());
        LaunchCommand { program: self.program.clone(), args }
    }
}

impl View for LaunchCommand {
    type V = CommandModel;

    open spec fn view(&self) -> CommandModel {
        CommandModel { program: self.program@, args: self.args.deep_view() }
    }
}

impl DeepView for LaunchCommand {
    type V = CommandModel;

    open spec fn deep_view(&self) -> CommandModel {
        self@
    }
}

/// The commands that start the launcher on `platform`, in the order in which
/// they are tried. Windows opens the launcher's own address, macOS opens the
/// application by name; elsewhere the launcher's binary is tried first, then
/// its Flatpak package, then the user's service manager, then the bare binary.
pub open spec fn launch_plan_of(platform: Platform) -> Seq<CommandModel> {
    match platform {
        Platform::Windows => seq![
            CommandModel {
                program: "cmd"@,
                args: seq!["/C"@, "start"@, ""@, "steam://open/main"@],
            },
        ],
        Platform::MacOS => seq![CommandModel { program: "open"@, args: seq!["-a"@, "Steam"@] }],
        Platform::Unix => seq![
            CommandModel { program: "steam"@, args: seq!["-silent"@] },
            CommandModel { program: "flatpak"@, args: seq!["run"@, "com.valvesoftware.Steam"@] },
            CommandModel { program: "systemctl"@, args: seq!["--user"@, "start"@, "steam"@] },
            CommandModel { program: "steam"@, args: Seq::empty() },
        ],
    }
}

/// Appends a copy of `text` to `list`.
fn push_text(list: &mut Vec<String>, text: &str)
    ensures
        final(list).deep_view() == old(list).deep_view().push(text@),
{
    list.push(String::from_str(text));
    assert(list.deep_view() =~= old(list).deep_view().push(text@));
}

/// Appends the command `program` with `args` to `plan`.
fn push_command(plan: &mut Vec<LaunchCommand>, program: &str, args: Vec<String>)
    ensures
        final(plan).deep_view() == old(plan).deep_view().push(
            CommandModel { program: program@, args: args.deep_view() },
        ),
{
    plan.push(LaunchCommand { program: String::from_str(program), args });
    assert(plan.deep_view() =~= old(plan).deep_view().push(
        CommandModel { program: program@, args: args.deep_view() },
    ));
}

/// The commands that start the launcher, in the order in which they are tried.
pub fn launch_plan(platform: Platform) -> (plan: Vec<LaunchCommand>)
    ensures
        plan.deep_view() == launch_plan_of(platform),
        plan.len() > 0,
{
    let mut plan: Vec<LaunchCommand> = Vec::new();
    assert(plan.deep_view() =~= Seq::<CommandModel>::empty());
    match platform {
        Platform::Windows => {
            let mut args: Vec<String> = Vec::new();
            assert(args.deep_view() =~= Seq::<Seq<char>>::empty());
            push_text(&mut args, "/C");
            push_text(&mut args, "start");
            push_text(&mut args, "");
            push_text(&mut args, "steam://open/main");
            assert(args.deep_view() =~= seq!["/C"@, "start"@, ""@, "steam://open/main"@]);
            push_command(&mut plan, "cmd", args);
        },
        Platform::MacOS => {
            let mut args: Vec<String> = Vec::new();
            assert(args.deep_view() =~= Seq::<Seq<char>>::empty());
            push_text(&mut args, "-a");
            push_text(&mut args, "Steam");
            assert(args.deep_view() =~= seq!["-a"@, "Steam"@]);
            push_command(&mut plan, "open", args);
        },
        Platform::Unix => {
            let mut silent: Vec<String> = Vec::new();
            assert(silent.deep_view() =~= Seq::<Seq<char>>::empty());
            push_text(&mut silent, "-silent");
            assert(silent.deep_view() =~= seq!["-silent"@]);
            push_command(&mut plan, "steam", silent);
            let mut package: Vec<String> = Vec::new();
            assert(package.deep_view() =~= Seq::<Seq<char>>::empty());
            push_text(&mut package, "run");
            push_text(&mut package, "com.valvesoftware.Steam");
            assert(package.deep_view() =~= seq!["run"@, "com.valvesoftware.Steam"@]);
            push_command(&mut plan, "flatpak", package);
            let mut service: Vec<String> = Vec::new();
            assert(service.deep_view() =~= Seq::<Seq<char>>::empty());
            push_text(&mut service, "--user");
            push_text(&mut service, "start");
            push_text(&mut service, "steam");
            assert(service.deep_view() =~= seq!["--user"@, "start"@, "steam"@]);
            push_command(&mut plan, "systemctl", service);
            let bare: Vec<String> = Vec::new();
            assert(bare.deep_view() =~= Seq::<Seq<char>>::empty());
            push_command(&mut plan, "steam", bare);
        },
    }
    assert(plan.deep_view() =~= launch_plan_of(platform));
    assert(plan.deep_view().len() == plan.len());
    plan
}

/// What the caller is to do next while starting the launcher.
#[derive(Debug, Clone, Copy, PartialEq, Eq, Structural)]
pub enum LaunchStep {
    /// Run the command at this place of the plan.
    Spawn { attempt: usize },
    /// A command was spawned: the launcher is starting.
    Started,
}

/// What follows the attempt at place `attempt` of the plan: a spawn ends the
/// work, a refusal leads to the next command, and the refusal of the last
/// command is the failure that is reported, with its text.
pub open spec fn launch_next(platform: Platform, attempt: usize, refusal: Option<Seq<char>>) -> Result<
    LaunchStep,
    Seq<char>,
> {
    match refusal {
        None => Ok(LaunchStep::Started),
        Some(report) => if attempt + 1 < launch_plan_of(platform).len() {
            Ok(LaunchStep::Spawn { attempt: (attempt + 1) as usize })
        } else {
            Err(report)
        },
    }
}

/// Decides what follows an attempt to start the launcher. The caller begins
/// with the first command of the plan and reports each attempt's outcome:
/// `Ok` where the command was spawned, else the system's report.
pub fn start_steam(platform: Platform, attempt: usize, outcome: Result<(), String>) -> (next:
    Result<LaunchStep, SyncError>)
    ensures
        match launch_next(
            platform,
            attempt,
            match outcome {
                Ok(_) => None,
                Err(report) => Some(report@),
            },
        ) {
            Ok(step) => next == Ok::<LaunchStep, SyncError>(step),
            Err(report) => next matches Err(SyncError::Io(text)) && text@ == report,
        },
{
    let commands: usize = match platform {
        Platform::Windows => 1,
        Platform::MacOS => 1,
        Platform::Unix => 4,
    };
    match outcome {
        Ok(_) => Ok(LaunchStep::Started),
        Err(report) => {
            if attempt < commands - 1 {
                Ok(LaunchStep::Spawn { attempt: attempt + 1 })
            } else {
                Err(SyncError::Io(report))
            }
        },
    }
}

/// What starting the launcher comes to when the commands of the plan from
/// place `attempt` on are tried in turn and meet `refusals`: `None` for a
/// command that was spawned, else the system's report. The result is `None`
/// while the outcomes leave it open.
pub open spec fn launched(platform: Platform, attempt: usize, refusals: Seq<Option<Seq<char>>>) -> Option<
    Result<(), Seq<char>>,
>
    decreases refusals.len(),
{
    if refusals.len() == 0 {
        None
    } else {
        match launch_next(platform, attempt, refusals[0]) {
            Ok(LaunchStep::Started) => Some(Ok(())),
            Ok(LaunchStep::Spawn { attempt: next }) => launched(
                platform,
                next,
                refusals.drop_first(),
            ),
            Err(report) => Some(Err(report)),
        }
    }
}

/// Starting succeeds with the first command that is spawned: the commands
/// before it were refused, and those after it are not tried.
pub proof fn lemma_first_spawn_starts(
    platform: Platform,
    attempt: usize,
    refusals: Seq<Option<Seq<char>>>,
    spawned: int,
)
    requires
        attempt + refusals.len() <= launch_plan_of(platform).len(),
        0 <= spawned < refusals.len(),
        refusals[spawned] is None,
        forall|i: int| 0 <= i < spawned ==> (#[trigger] refusals[i]) is Some,
    ensures
        launched(platform, attempt, refusals) == Some(Ok::<(), Seq<char>>(())),
    decreases refusals.len(),
{
    if spawned > 0 {
        let rest = refusals.drop_first();
        assert(refusals[0] is Some);
        assert forall|i: int| 0 <= i < spawned - 1 implies (#[trigger] rest[i]) is Some by {
            assert(rest[i] == refusals[i + 1]);
        }
        assert(rest[spawned - 1] == refusals[spawned]);
        lemma_first_spawn_starts(platform, (attempt + 1) as usize, rest, spawned - 1);
    }
}

/// Where every command of the plan is refused, starting fails with the
/// report of the last one.
pub proof fn lemma_all_refused_fails(
    platform: Platform,
    attempt: usize,
    refusals: Seq<Option<Seq<char>>>,
)
    requires
        refusals.len() > 0,
        attempt + refusals.len() == launch_plan_of(platform).len(),
        forall|i: int| 0 <= i < refusals.len() ==> (#[trigger] refusals[i]) is Some,
    ensures
        launched(platform, attempt, refusals) == Some(Err::<(), Seq<char>>(refusals.last()->0)),
    decreases refusals.len(),
{
    assert(refusals[0] is Some);
    if refusals.len() > 1 {
        let rest = refusals.drop_first();
        assert forall|i: int| 0 <= i < rest.len() implies (#[trigger] rest[i]) is Some by {
            assert(rest[i] == refusals[i + 1]);
        }
        assert(rest.last() == refusals.last());
        lemma_all_refused_fails(platform, (attempt + 1) as usize, rest);
    }
}

/// How long the caller sleeps between two looks at the process table while
/// it waits for the launcher, in milliseconds.
pub const CONFIRM_INTERVAL_MILLIS: u64 = 500;

/// What the caller is to do next while it waits for the launcher.
#[derive(Debug, Clone, Copy, PartialEq, Eq, Structural)]
pub enum ConfirmStep {
    /// The launcher runs.
    Running,
    /// Sleep, then look at the process table again.
    LookAgain { after_millis: u64 },
}

/// What follows a look at the process table: the launcher runs as soon as it
/// is seen; a look that does not see it at or after the deadline is a
/// timeout; before the deadline the caller sleeps and looks again.
pub open spec fn confirm_next(timeout_nanos: u128, running: bool, elapsed_nanos: u128) -> Result<
    ConfirmStep,
    SyncError,
> {
    if running {
        Ok(ConfirmStep::Running)
    } else if elapsed_nanos >= timeout_nanos {
        Err(SyncError::Timeout)
    } else {
        Ok(ConfirmStep::LookAgain { after_millis: CONFIRM_INTERVAL_MILLIS })
    }
}

/// Decides what follows a look at the process table while the caller waits
/// for the launcher. `elapsed_nanos` is the time since the wait began,
/// `timeout_nanos` the deadline, both in nanoseconds.
pub fn ensure_steam_started(timeout_nanos: u128, running: bool, elapsed_nanos: u128) -> (next:
    Result<ConfirmStep, SyncError>)
    ensures
        next == confirm_next(timeout_nanos, running, elapsed_nanos),
{
    if running {
        Ok(ConfirmStep::Running)
    } else if elapsed_nanos >= timeout_nanos {
        Err(SyncError::Timeout)
    } else {
        Ok(ConfirmStep::LookAgain { after_millis: CONFIRM_INTERVAL_MILLIS })
    }
}

/// One look at the process table: whether a process bears the launcher's
/// name, and how long the wait has lasted.
pub struct Look {
    pub running: bool,
    pub elapsed_nanos: u128,
}

/// What the wait for the launcher comes to when the process table shows
/// `looks`, one after the other; `None` while no look has decided it.
pub open spec fn confirmed(timeout_nanos: u128, looks: Seq<Look>) -> Option<Result<(), SyncError>>
    decreases looks.len(),
{
    if looks.len() == 0 {
        None
    } else {
        match confirm_next(timeout_nanos, looks[0].running, looks[0].elapsed_nanos) {
            Ok(ConfirmStep::Running) => Some(Ok(())),
            Ok(ConfirmStep::LookAgain { .. }) => confirmed(timeout_nanos, looks.drop_first()),
            Err(e) => Some(Err(e)),
        }
    }
}

/// The wait succeeds as soon as a look sees the launcher, provided that no
/// earlier look fell on or after the deadline.
pub proof fn lemma_confirmed_when_seen(timeout_nanos: u128, looks: Seq<Look>, seen: int)
    requires
        0 <= seen < looks.len(),
        looks[seen].running,
        forall|i: int|
            0 <= i < seen ==> !(#[trigger] looks[i]).running && looks[i].elapsed_nanos
                < timeout_nanos,
    ensures
        confirmed(timeout_nanos, looks) == Some(Ok::<(), SyncError>(())),
    decreases looks.len(),
{
    if seen > 0 {
        let rest = looks.drop_first();
        assert forall|i: int| 0 <= i < seen - 1 implies !(#[trigger] rest[i]).running
            && rest[i].elapsed_nanos < timeout_nanos by {
            assert(rest[i] == looks[i + 1]);
        }
        assert(rest[seen - 1] == looks[seen]);
        assert(!looks[0].running && looks[0].elapsed_nanos < timeout_nanos);
        lemma_confirmed_when_seen(timeout_nanos, rest, seen - 1);
    }
}

/// The wait times out at the first look on or after the deadline, provided
/// that no look up to then sees the launcher.
pub proof fn lemma_confirmed_times_out(timeout_nanos: u128, looks: Seq<Look>, late: int)
    requires
        0 <= late < looks.len(),
        looks[late].elapsed_nanos >= timeout_nanos,
        forall|i: int| 0 <= i <= late ==> !(#[trigger] looks[i]).running,
        forall|i: int| 0 <= i < late ==> (#[trigger] looks[i]).elapsed_nanos < timeout_nanos,
    ensures
        confirmed(timeout_nanos, looks) == Some(Err::<(), SyncError>(SyncError::Timeout)),
    decreases looks.len(),
{
    if late > 0 {
        let rest = looks.drop_first();
        assert forall|i: int| 0 <= i <= late - 1 implies !(#[trigger] rest[i]).running by {
            assert(rest[i] == looks[i + 1]);
        }
        assert forall|i: int| 0 <= i < late - 1 implies (#[trigger] rest[i]).elapsed_nanos
            < timeout_nanos by {
            assert(rest[i] == looks[i + 1]);
        }
        assert(rest[late - 1] == looks[late]);
        assert(!looks[0].running && looks[0].elapsed_nanos < timeout_nanos);
        lemma_confirmed_times_out(timeout_nanos, rest, late - 1);
    } else {
        assert(!looks[0].running);
    }
}

} // verus!
