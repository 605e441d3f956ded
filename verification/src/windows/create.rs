//! What is asked of the host to create a process, its pipes and its job.
use vstd::prelude::*;

use crate::host::{HostError, HostErrorKind};
use crate::strings::{decimal, decimal_text, join2, join3, lemma_decimal_injective};

use super::command_line::{arg_texts, build_command_line, command_line_text};
use super::environment::{block_of, build_env_block, env_map, lists, EnvEntry, EnvOverride};
use super::spawn::{
    creation_flags, exit_code_of, flags_of, needs_own_environment, pipe_access, retry_flags,
    signed_code, try_wait_result, CreateMode, PipeDir, CREATE_BREAKAWAY_FROM_JOB,
    ERROR_ACCESS_DENIED, JOB_OBJECT_LIMIT_BREAKAWAY_OK, JOB_OBJECT_LIMIT_KILL_ON_JOB_CLOSE,
    STILL_ACTIVE, WAIT_OBJECT_0,
};
use super::wide::{encode_wide, utf16};

verus! {

// ---------------------------------------------------------------------------
// Pipes
// ---------------------------------------------------------------------------

pub const FILE_FLAG_OVERLAPPED: u32 = 0x4000_0000;

pub const FILE_FLAG_FIRST_PIPE_INSTANCE: u32 = 0x0008_0000;

pub const PIPE_REJECT_REMOTE_CLIENTS: u32 = 0x0000_0008;

/// How much a pipe holds in each direction.
pub const PIPE_BUFFER_BYTES: u32 = 65_536;

/// A pipe to a child. The end of the parent works asynchronously and is not
/// inherited; the end of the child works synchronously and is.
#[derive(Debug)]
pub struct PipePlan {
    /// The name, closed by a zero.
    pub name: Vec<u16>,
    /// How the end of the parent is opened.
    pub open_mode: u32,
    /// What kind of pipe it is.
    pub pipe_mode: u32,
    /// How the end of the child is opened.
    pub child_access: u32,
}

/// The name of a pipe: of this process, and of this pipe in it.
pub open spec fn pipe_named(process: nat, number: nat) -> Seq<char> {
    "\\\\.\\pipe\\running-process-"@ + decimal(process) + "-"@ + decimal(number)
}

pub open spec fn pipe_access_of(dir: PipeDir) -> (u32, u32) {
    match dir {
        PipeDir::ParentWritesChildReads => (2u32, 0x8000_0000u32),
        PipeDir::ChildWritesParentReads => (1u32, 0x4000_0000u32),
    }
}

/// What to ask for to get both ends of a pipe. Nobody else can have made a pipe of
/// that name before, nor reach it from another machine.
pub fn create_pipe_pair(dir: PipeDir, process: u32, number: u64) -> (plan: PipePlan)
    ensures
        plan.name@ == utf16(pipe_named(process as nat, number as nat)).push(0),
        plan.open_mode == pipe_access_of(dir).0 | FILE_FLAG_OVERLAPPED
            | FILE_FLAG_FIRST_PIPE_INSTANCE,
        plan.pipe_mode == PIPE_REJECT_REMOTE_CLIENTS,
        plan.child_access == pipe_access_of(dir).1,
{
    let front = join2("\\\\.\\pipe\\running-process-", decimal_text(process as u64).as_str());
    let text = join3(front.as_str(), "-", decimal_text(number).as_str());
    let mut name: Vec<u16> = Vec::new();
    encode_wide(text.as_str(), &mut name);
    name.push(0);
    assert(name@ =~= utf16(text@).push(0));
    let (access, child_access) = pipe_access(dir);
    PipePlan {
        name,
        open_mode: access | FILE_FLAG_OVERLAPPED | FILE_FLAG_FIRST_PIPE_INSTANCE,
        pipe_mode: PIPE_REJECT_REMOTE_CLIENTS,
        child_access,
    }
}

/// No two pipes of a process share a name.
pub proof fn pipes_do_not_collide(process: nat, first: nat, second: nat)
    requires
        pipe_named(process, first) == pipe_named(process, second),
    ensures
        first == second,
{
    let front = "\\\\.\\pipe\\running-process-"@ + decimal(process) + "-"@;
    assert(pipe_named(process, first).skip(front.len() as int) =~= decimal(first));
    assert(pipe_named(process, second).skip(front.len() as int) =~= decimal(second));
    lemma_decimal_injective(first, second);
}

// ---------------------------------------------------------------------------
// Creation
// ---------------------------------------------------------------------------

/// A program to start.
#[derive(Clone, Debug)]
pub struct CreateRequest {
    pub program: String,
    pub args: Vec<String>,
    pub overrides: Vec<EnvOverride>,
    /// Whether the variables of this process are the base, and not given ones.
    pub inherits: bool,
    /// The base of the environment.
    pub base: Vec<EnvEntry>,
    pub cwd: Option<Vec<u16>>,
    pub mode: CreateMode,
}

/// What is handed to the host.
#[derive(Debug)]
pub struct CreatePlan {
    pub command_line: Vec<u16>,
    /// The block of variables; without one the host copies those of this process.
    pub environment: Option<Vec<u16>>,
    /// The directory to start in, closed by a zero.
    pub cwd: Option<Vec<u16>>,
    pub flags: u32,
}

/// What a request amounts to. Variables are written out only where they differ
/// from those that the host would copy by itself.
pub fn create_process_inner(request: CreateRequest) -> (plan: CreatePlan)
    ensures
        plan.command_line@ == utf16(
            command_line_text(request.program@, arg_texts(request.args@)),
        ).push(0),
        match plan.environment {
            None => request.overrides@.len() == 0 && request.inherits,
            Some(block) => (request.overrides@.len() > 0 || !request.inherits) && exists|
                list: Seq<EnvEntry>,
            |
                #![trigger block_of(list)]
                lists(list, env_map(request.base@, request.overrides@)) && block@ == block_of(list),
        },
        match (request.cwd, plan.cwd) {
            (None, None) => true,
            (Some(path), Some(closed)) => closed@ == path@.push(0),
            _ => false,
        },
        plan.flags == flags_of(request.mode, plan.environment is Some),
{
    let command_line = build_command_line(request.program.as_str(), &request.args);
    let own = needs_own_environment(request.overrides.len() > 0, request.inherits);
    let environment = if own {
        Some(build_env_block(request.overrides, request.base))
    } else {
        None
    };
    let cwd = match request.cwd {
        Some(path) => {
            let mut closed = path;
            closed.push(0);
            Some(closed)
        },
        None => None,
    };
    CreatePlan { command_line, environment, cwd, flags: creation_flags(request.mode, own) }
}

/// What comes of an attempt to create a process.
#[derive(Clone, Copy, Debug, PartialEq, Eq, Structural)]
pub enum CreateStep {
    /// The process is there.
    Created,
    /// Try again, with these flags.
    Again { flags: u32 },
    /// Report the failure.
    Fail,
}

/// What to do after an attempt: one that was denied because the process may not
/// leave its job is made once more, staying in the job.
pub fn after_attempt(flags: u32, failure: Option<&HostError>) -> (step: CreateStep)
    ensures
        step == match failure {
            None => CreateStep::Created,
            Some(error) => if flags & CREATE_BREAKAWAY_FROM_JOB != 0 && error.code == Some(
                ERROR_ACCESS_DENIED,
            ) {
                CreateStep::Again { flags: flags & !CREATE_BREAKAWAY_FROM_JOB }
            } else {
                CreateStep::Fail
            },
        },
{
    match failure {
        None => CreateStep::Created,
        Some(error) => match retry_flags(flags, error.code) {
            Some(flags) => CreateStep::Again { flags },
            None => CreateStep::Fail,
        },
    }
}

/// Whether the first thread of a new process is handed back: only of one that
/// waits to be resumed.
pub fn keeps_thread(mode: CreateMode) -> (keeps: bool)
    ensures
        keeps == (mode is Contained),
{
    match mode {
        CreateMode::Contained { show_console: _ } => true,
        CreateMode::Daemon { breakaway: _ } => false,
    }
}

/// The limits of an ordinary job: it dies with its last handle, and lets go of
/// processes that ask for it.
pub fn create_job_object() -> (flags: u32)
    ensures
        flags == JOB_OBJECT_LIMIT_KILL_ON_JOB_CLOSE | JOB_OBJECT_LIMIT_BREAKAWAY_OK,
{
    JOB_OBJECT_LIMIT_KILL_ON_JOB_CLOSE | JOB_OBJECT_LIMIT_BREAKAWAY_OK
}

// ---------------------------------------------------------------------------
// A contained child
// ---------------------------------------------------------------------------

/// Where the start of a contained child stands.
#[derive(Clone, Copy, Debug, PartialEq, Eq, Structural)]
pub enum SpawnStage {
    /// Resolve the three streams.
    Streams,
    /// Create the process, suspended.
    Create,
    /// Make its job.
    MakeJob,
    /// Put it in its job.
    Assign,
    /// Let it run; whether that succeeds makes no difference here.
    Resume,
    /// Copy its handle for whoever waits for its pipes to drain.
    Watch,
    /// The child runs, in its job.
    Running,
    /// Report the failure.
    Failed,
    /// End the child, which never ran, and report the failure.
    EndAndFail,
}

/// The stage after the work of `stage` was tried.
pub open spec fn spawn_next(stage: SpawnStage, succeeded: bool, drains: bool) -> SpawnStage {
    match stage {
        SpawnStage::Streams => if succeeded { SpawnStage::Create } else { SpawnStage::Failed },
        SpawnStage::Create => if succeeded { SpawnStage::MakeJob } else { SpawnStage::Failed },
        SpawnStage::MakeJob => if succeeded { SpawnStage::Assign } else { SpawnStage::Failed },
        SpawnStage::Assign => if succeeded { SpawnStage::Resume } else { SpawnStage::EndAndFail },
        SpawnStage::Resume => if drains { SpawnStage::Watch } else { SpawnStage::Running },
        SpawnStage::Watch => if succeeded { SpawnStage::Running } else { SpawnStage::Failed },
        other => other,
    }
}

/// [`spawn_next`] as code. `drains` tells whether someone waits for the pipes to
/// drain.
pub fn spawn_sync(stage: SpawnStage, succeeded: bool, drains: bool) -> (next: SpawnStage)
    ensures
        next == spawn_next(stage, succeeded, drains),
{
    match stage {
        SpawnStage::Streams => if succeeded {
            SpawnStage::Create
        } else {
            SpawnStage::Failed
        },
        SpawnStage::Create => if succeeded {
            SpawnStage::MakeJob
        } else {
            SpawnStage::Failed
        },
        SpawnStage::MakeJob => if succeeded {
            SpawnStage::Assign
        } else {
            SpawnStage::Failed
        },
        SpawnStage::Assign => if succeeded {
            SpawnStage::Resume
        } else {
            SpawnStage::EndAndFail
        },
        SpawnStage::Resume => if drains {
            SpawnStage::Watch
        } else {
            SpawnStage::Running
        },
        SpawnStage::Watch => if succeeded {
            SpawnStage::Running
        } else {
            SpawnStage::Failed
        },
        other => other,
    }
}

/// The stage that a history of outcomes leads to.
pub open spec fn spawn_after(outcomes: Seq<bool>, drains: bool) -> SpawnStage
    decreases outcomes.len(),
{
    if outcomes.len() == 0 {
        SpawnStage::Streams
    } else {
        spawn_next(spawn_after(outcomes.drop_last(), drains), outcomes.last(), drains)
    }
}

proof fn lemma_spawn_history(outcomes: Seq<bool>, drains: bool)
    ensures
        match spawn_after(outcomes, drains) {
            SpawnStage::Streams => outcomes.len() == 0,
            SpawnStage::Create => outcomes.len() == 1,
            SpawnStage::MakeJob => outcomes.len() == 2 && outcomes[1],
            SpawnStage::Assign => outcomes.len() == 3 && outcomes[1] && outcomes[2],
            SpawnStage::Resume => outcomes.len() == 4 && outcomes[1] && outcomes[2] && outcomes[3],
            SpawnStage::Watch => drains && outcomes.len() == 5 && outcomes[1] && outcomes[2]
                && outcomes[3],
            SpawnStage::Running => outcomes.len() >= 5 && outcomes[1] && outcomes[2]
                && outcomes[3],
            SpawnStage::EndAndFail => outcomes.len() >= 4 && outcomes[1] && !outcomes[3],
            SpawnStage::Failed => outcomes.len() >= 1,
        },
    decreases outcomes.len(),
{
    if outcomes.len() > 0 {
        let before = outcomes.drop_last();
        lemma_spawn_history(before, drains);
        assert forall|i: int| 0 <= i < before.len() implies #[trigger] outcomes[i] == before[i] by {
        }
    }
}

/// A child is resumed only after it was created and put in its job, so that it
/// can start nothing outside of it; one that could not be put there is ended.
pub proof fn children_run_only_contained(outcomes: Seq<bool>, drains: bool)
    ensures
        spawn_after(outcomes, drains) == SpawnStage::Resume ==> outcomes.len() == 4 && outcomes[1]
            && outcomes[3],
        spawn_after(outcomes, drains) == SpawnStage::Running ==> outcomes[1] && outcomes[3],
        spawn_after(outcomes, drains) == SpawnStage::EndAndFail ==> outcomes[1] && !outcomes[3],
{
    lemma_spawn_history(outcomes, drains);
}

/// Which handles of a child are still held.
#[derive(Clone, Copy, Debug, PartialEq, Eq, Structural)]
pub struct SpawnedState {
    pub process: bool,
    pub job: bool,
}

impl SpawnedState {
    pub fn spawned() -> (state: Self)
        ensures
            state.process && state.job,
    {
        SpawnedState { process: true, job: true }
    }

    /// What ending the child comes to: nothing is wrong where it is gone.
    pub fn kill(&self, ended: Result<(), HostError>) -> (killed: Result<(), HostError>)
        ensures
            killed == if self.process { ended } else { Ok::<(), HostError>(()) },
    {
        if self.process {
            ended
        } else {
            Ok(())
        }
    }

    /// What waiting for the child comes to.
    pub fn wait(&self, waited: Result<i32, HostError>) -> (exit: Result<i32, HostError>)
        ensures
            if self.process {
                exit == waited
            } else {
                exit is Err && exit->Err_0.says(HostErrorKind::Other, "child handle absent"@)
            },
    {
        if self.process {
            waited
        } else {
            Err(HostError::new(HostErrorKind::Other, "child handle absent"))
        }
    }

    /// What a look at the child without waiting comes to.
    pub fn try_wait(&self, looked: Result<Option<i32>, HostError>) -> (exit: Result<
        Option<i32>,
        HostError,
    >)
        ensures
            exit == if self.process {
                looked
            } else {
                Ok::<Option<i32>, HostError>(None)
            },
    {
        if self.process {
            looked
        } else {
            Ok(None)
        }
    }

    /// Lets go of the child: its job first, which ends everything in it.
    pub fn shutdown(&mut self)
        ensures
            !final(self).process,
            !final(self).job,
    {
        self.job = false;
        self.process = false;
    }
}

/// What waiting without end comes to. `read` is the exit code, where the host
/// could say, and `native` its failure otherwise.
pub fn wait_inner(waited: u32, read: Option<u32>, native: HostError) -> (exit: Result<
    i32,
    HostError,
>)
    ensures
        match exit {
            Ok(code) => waited == WAIT_OBJECT_0 && read is Some && code == signed_code(
                read->Some_0,
            ),
            Err(error) => error == native && (waited != WAIT_OBJECT_0 || read is None),
        },
{
    if waited != WAIT_OBJECT_0 {
        return Err(native);
    }
    match read {
        Some(code) => Ok(exit_code_of(code)),
        None => Err(native),
    }
}

/// What a look without waiting comes to.
pub fn try_wait_inner(read: Option<u32>, native: HostError) -> (exit: Result<
    Option<i32>,
    HostError,
>)
    ensures
        match (read, exit) {
            (None, Err(error)) => error == native,
            (Some(code), Ok(None)) => code == STILL_ACTIVE,
            (Some(code), Ok(Some(exit))) => code != STILL_ACTIVE && exit == signed_code(code),
            _ => false,
        },
{
    match read {
        Some(code) => Ok(try_wait_result(code)),
        None => Err(native),
    }
}

/// The end that the parent holds and the end that the child opens go in opposite directions.
pub proof fn pipe_ends_are_opposite(dir: PipeDir)
    ensures
        pipe_access_of(dir).0 == 1 <==> pipe_access_of(dir).1 == 0x4000_0000,
        pipe_access_of(dir).0 == 2 <==> pipe_access_of(dir).1 == 0x8000_0000,
        pipe_access_of(dir).0 == 1 || pipe_access_of(dir).0 == 2,
        dir == PipeDir::ParentWritesChildReads <==> pipe_access_of(dir).0 == 2,
{
}

/// A start whose steps all succeed goes through them in order and leaves the child running; one
/// whose job cannot be given ends the child that is waiting in it.
pub proof fn starts_succeed_step_by_step(outcomes: Seq<bool>, drains: bool)
    requires
        forall|i: int| 0 <= i < outcomes.len() ==> outcomes[i],
    ensures
        outcomes.len() == 0 ==> spawn_after(outcomes, drains) == SpawnStage::Streams,
        outcomes.len() == 1 ==> spawn_after(outcomes, drains) == SpawnStage::Create,
        outcomes.len() == 2 ==> spawn_after(outcomes, drains) == SpawnStage::MakeJob,
        outcomes.len() == 3 ==> spawn_after(outcomes, drains) == SpawnStage::Assign,
        outcomes.len() == 4 ==> spawn_after(outcomes, drains) == SpawnStage::Resume,
        outcomes.len() == 5 && drains ==> spawn_after(outcomes, drains) == SpawnStage::Watch,
        outcomes.len() == 5 && !drains ==> spawn_after(outcomes, drains) == SpawnStage::Running,
        outcomes.len() >= 6 ==> spawn_after(outcomes, drains) == SpawnStage::Running,
        outcomes.len() <= 2 ==> spawn_after(outcomes.push(false), drains) == SpawnStage::Failed,
        outcomes.len() == 3 ==> spawn_after(outcomes.push(false), drains)
            == SpawnStage::EndAndFail,
    decreases outcomes.len(),
{
    assert(outcomes.push(false).drop_last() =~= outcomes);
    if outcomes.len() > 0 {
        starts_succeed_step_by_step(outcomes.drop_last(), drains);
    }
}

} // verus!
