//! How processes are started: creation flags, job limits, standard streams, and
//! the order of work that keeps a hostile worker contained.
use vstd::prelude::*;

use crate::host::{HostError, HostErrorKind};
use crate::strings::{join2, join3};

verus! {

pub const CREATE_SUSPENDED: u32 = 0x0000_0004;

pub const DETACHED_PROCESS: u32 = 0x0000_0008;

pub const CREATE_NEW_PROCESS_GROUP: u32 = 0x0000_0200;

pub const CREATE_UNICODE_ENVIRONMENT: u32 = 0x0000_0400;

pub const EXTENDED_STARTUPINFO_PRESENT: u32 = 0x0008_0000;

pub const CREATE_BREAKAWAY_FROM_JOB: u32 = 0x0100_0000;

pub const CREATE_NO_WINDOW: u32 = 0x0800_0000;

pub const JOB_OBJECT_LIMIT_ACTIVE_PROCESS: u32 = 0x0000_0008;

pub const JOB_OBJECT_LIMIT_PROCESS_MEMORY: u32 = 0x0000_0100;

pub const JOB_OBJECT_LIMIT_JOB_MEMORY: u32 = 0x0000_0200;

pub const JOB_OBJECT_LIMIT_BREAKAWAY_OK: u32 = 0x0000_0800;

pub const JOB_OBJECT_LIMIT_KILL_ON_JOB_CLOSE: u32 = 0x0000_2000;

pub const ERROR_ACCESS_DENIED: i32 = 5;

pub const WAIT_OBJECT_0: u32 = 0;

pub const WAIT_TIMEOUT: u32 = 0x0000_0102;

/// The exit code of a process that has not exited.
pub const STILL_ACTIVE: u32 = 259;

/// How long the reaping of a contained worker may take.
pub const STRICT_WORKER_REAP_TIMEOUT_MS: u32 = 5_000;

// ---------------------------------------------------------------------------
// Creation flags
// ---------------------------------------------------------------------------

/// How a process is to live.
#[derive(Clone, Copy, Debug, PartialEq, Eq, Structural)]
pub enum CreateMode {
    /// Apart from every console, and outside the job of its parent if
    /// `breakaway` asks for that.
    Daemon { breakaway: bool },
    /// Suspended, until it has been put in a job.
    Contained { show_console: bool },
}

/// The flags of a daemon on top of `base`. Leaving the parent's job is a wish of
/// its own: a process may want a clean set of handles and still die with the job
/// that it was started in.
pub fn daemon_creation_flags(base: u32, breakaway: bool) -> (flags: u32)
    ensures
        flags == if breakaway {
            base | DETACHED_PROCESS | CREATE_NEW_PROCESS_GROUP | CREATE_BREAKAWAY_FROM_JOB
        } else {
            base | DETACHED_PROCESS | CREATE_NEW_PROCESS_GROUP
        },
{
    let flags: u32 = base | DETACHED_PROCESS | CREATE_NEW_PROCESS_GROUP;
    if breakaway {
        flags | CREATE_BREAKAWAY_FROM_JOB
    } else {
        flags
    }
}

/// The flags with which a process is created.
pub open spec fn flags_of(mode: CreateMode, own_environment: bool) -> u32 {
    let base = EXTENDED_STARTUPINFO_PRESENT;
    let flags = match mode {
        CreateMode::Daemon { breakaway } => if breakaway {
            base | DETACHED_PROCESS | CREATE_NEW_PROCESS_GROUP | CREATE_BREAKAWAY_FROM_JOB
        } else {
            base | DETACHED_PROCESS | CREATE_NEW_PROCESS_GROUP
        },
        CreateMode::Contained { show_console } => if show_console {
            base | CREATE_SUSPENDED
        } else {
            base | CREATE_SUSPENDED | CREATE_NO_WINDOW
        },
    };
    if own_environment { flags | CREATE_UNICODE_ENVIRONMENT } else { flags }
}

pub fn creation_flags(mode: CreateMode, own_environment: bool) -> (flags: u32)
    ensures
        flags == flags_of(mode, own_environment),
{
    let base: u32 = EXTENDED_STARTUPINFO_PRESENT;
    let flags: u32 = match mode {
        CreateMode::Daemon { breakaway } => daemon_creation_flags(base, breakaway),
        CreateMode::Contained { show_console } => if show_console {
            base | CREATE_SUSPENDED
        } else {
            base | CREATE_SUSPENDED | CREATE_NO_WINDOW
        },
    };
    if own_environment {
        flags | CREATE_UNICODE_ENVIRONMENT
    } else {
        flags
    }
}

/// The flags to try again with after a failed creation, if it should be tried
/// again. A job that does not let its processes go refuses the whole creation
/// with "access denied"; a daemon that stays is better than none.
pub fn retry_flags(flags: u32, code: Option<i32>) -> (again: Option<u32>)
    ensures
        again == if flags & CREATE_BREAKAWAY_FROM_JOB != 0 && code == Some(ERROR_ACCESS_DENIED) {
            Some(flags & !CREATE_BREAKAWAY_FROM_JOB)
        } else {
            None::<u32>
        },
{
    if flags & CREATE_BREAKAWAY_FROM_JOB != 0 {
        if let Some(code) = code {
            if code == ERROR_ACCESS_DENIED {
                return Some(flags & !CREATE_BREAKAWAY_FROM_JOB);
            }
        }
    }
    None
}

/// Whether a block of variables has to be built, or the parent's is inherited.
pub fn needs_own_environment(has_overrides: bool, inherits: bool) -> (needs: bool)
    ensures
        needs == (has_overrides || !inherits),
{
    has_overrides || !inherits
}

/// A daemon never starts suspended, because nothing would resume it, and never
/// shares a hidden console; a contained process always starts suspended, so that
/// it cannot run before it is in its job.
pub proof fn only_contained_processes_start_suspended(mode: CreateMode, own_environment: bool)
    ensures
        match mode {
            CreateMode::Daemon { breakaway } => {
                &&& flags_of(mode, own_environment) & CREATE_SUSPENDED == 0
                &&& flags_of(mode, own_environment) & CREATE_NO_WINDOW == 0
                &&& (flags_of(mode, own_environment) & CREATE_BREAKAWAY_FROM_JOB != 0) == breakaway
            },
            CreateMode::Contained { show_console } => {
                &&& flags_of(mode, own_environment) & CREATE_SUSPENDED != 0
                &&& flags_of(mode, own_environment) & CREATE_BREAKAWAY_FROM_JOB == 0
            },
        },
{
    assert(((0x80000u32 | 8u32 | 0x200u32) & 4u32 == 0) && ((0x80000u32 | 8u32 | 0x200u32)
        & 0x8000000u32 == 0) && ((0x80000u32 | 8u32 | 0x200u32) & 0x1000000u32 == 0) && ((0x80000u32
        | 8u32 | 0x200u32 | 0x400u32) & 4u32 == 0) && ((0x80000u32 | 8u32 | 0x200u32 | 0x400u32)
        & 0x8000000u32 == 0) && ((0x80000u32 | 8u32 | 0x200u32 | 0x400u32) & 0x1000000u32 == 0)
        && ((0x80000u32 | 8u32 | 0x200u32 | 0x1000000u32) & 4u32 == 0) && ((0x80000u32 | 8u32
        | 0x200u32 | 0x1000000u32) & 0x8000000u32 == 0) && ((0x80000u32 | 8u32 | 0x200u32
        | 0x1000000u32) & 0x1000000u32 != 0) && ((0x80000u32 | 8u32 | 0x200u32 | 0x1000000u32
        | 0x400u32) & 4u32 == 0) && ((0x80000u32 | 8u32 | 0x200u32 | 0x1000000u32 | 0x400u32)
        & 0x8000000u32 == 0) && ((0x80000u32 | 8u32 | 0x200u32 | 0x1000000u32 | 0x400u32)
        & 0x1000000u32 != 0)) by (bit_vector);
    assert(((0x80000u32 | 4u32) & 4u32 != 0) && ((0x80000u32 | 4u32) & 0x1000000u32 == 0)
        && ((0x80000u32 | 4u32 | 0x400u32) & 4u32 != 0) && ((0x80000u32 | 4u32 | 0x400u32)
        & 0x1000000u32 == 0) && ((0x80000u32 | 4u32 | 0x8000000u32) & 4u32 != 0) && ((0x80000u32
        | 4u32 | 0x8000000u32) & 0x1000000u32 == 0) && ((0x80000u32 | 4u32 | 0x8000000u32
        | 0x400u32) & 4u32 != 0) && ((0x80000u32 | 4u32 | 0x8000000u32 | 0x400u32) & 0x1000000u32
        == 0)) by (bit_vector);
}

/// Trying again changes nothing but the wish to leave the job: the flags are
/// those of a daemon that never asked for it.
pub proof fn retry_only_gives_up_breakaway(own_environment: bool)
    ensures
        flags_of(CreateMode::Daemon { breakaway: true }, own_environment)
            & !CREATE_BREAKAWAY_FROM_JOB == flags_of(
            CreateMode::Daemon { breakaway: false },
            own_environment,
        ),
{
    assert((0x80000u32 | 8u32 | 0x200u32 | 0x1000000u32) & !0x1000000u32 == (0x80000u32 | 8u32
        | 0x200u32)) by (bit_vector);
    assert((0x80000u32 | 8u32 | 0x200u32 | 0x1000000u32 | 0x400u32) & !0x1000000u32 == (0x80000u32
        | 8u32 | 0x200u32 | 0x400u32)) by (bit_vector);
}

/// A retry is never followed by another: the flags it uses no longer ask to
/// leave the job.
pub proof fn retry_happens_once(flags: u32)
    ensures
        (flags & !CREATE_BREAKAWAY_FROM_JOB) & CREATE_BREAKAWAY_FROM_JOB == 0,
{
    assert((flags & !0x1000000u32) & 0x1000000u32 == 0) by (bit_vector);
}

// ---------------------------------------------------------------------------
// Standard streams
// ---------------------------------------------------------------------------

/// Which standard stream a slot is for.
#[derive(Clone, Copy, Debug, PartialEq, Eq, Structural)]
pub enum SlotDir {
    Stdin,
    Stdout,
    Stderr,
}

/// What a standard stream is to be connected to.
#[derive(Clone, Copy, Debug, PartialEq, Eq, Structural)]
pub enum StdioSource {
    Null,
    Parent,
    File,
    Pipe,
}

/// Which end of a pipe belongs to whom.
#[derive(Clone, Copy, Debug, PartialEq, Eq, Structural)]
pub enum PipeDir {
    ParentWritesChildReads,
    ChildWritesParentReads,
}

/// How a slot is filled.
#[derive(Clone, Copy, Debug, PartialEq, Eq, Structural)]
pub enum SlotPlan {
    /// Open the null device, for writing or for reading.
    OpenNull { write: bool },
    /// Hand the child an inheritable copy of the parent's own stream.
    DuplicateParent,
    /// Hand the child an inheritable copy of the given file.
    DuplicateFile,
    /// Make a pipe. The parent's end must support overlapped I/O and the child's
    /// end must not.
    CreatePipe { dir: PipeDir },
}

/// How to fill a slot. `parent_has_stream` tells whether this process has a
/// usable stream of that kind; a detached one has not.
pub fn resolve_slot(source: StdioSource, dir: SlotDir, parent_has_stream: bool) -> (plan: SlotPlan)
    ensures
        plan == match source {
            StdioSource::Null => SlotPlan::OpenNull { write: dir != SlotDir::Stdin },
            StdioSource::Parent => if parent_has_stream {
                SlotPlan::DuplicateParent
            } else {
                SlotPlan::OpenNull { write: dir != SlotDir::Stdin }
            },
            StdioSource::File => SlotPlan::DuplicateFile,
            StdioSource::Pipe => SlotPlan::CreatePipe {
                dir: if dir == SlotDir::Stdin {
                    PipeDir::ParentWritesChildReads
                } else {
                    PipeDir::ChildWritesParentReads
                },
            },
        },
{
    let write = dir != SlotDir::Stdin;
    match source {
        StdioSource::Null => SlotPlan::OpenNull { write },
        StdioSource::Parent => if parent_has_stream {
            SlotPlan::DuplicateParent
        } else {
            SlotPlan::OpenNull { write }
        },
        StdioSource::File => SlotPlan::DuplicateFile,
        StdioSource::Pipe => if write {
            SlotPlan::CreatePipe { dir: PipeDir::ChildWritesParentReads }
        } else {
            SlotPlan::CreatePipe { dir: PipeDir::ParentWritesChildReads }
        },
    }
}

/// The open mode of the parent's end of a pipe and the access of the child's.
pub fn pipe_access(dir: PipeDir) -> (access: (u32, u32))
    ensures
        access == match dir {
            PipeDir::ParentWritesChildReads => (2u32, 0x8000_0000u32),
            PipeDir::ChildWritesParentReads => (1u32, 0x4000_0000u32),
        },
{
    match dir {
        PipeDir::ParentWritesChildReads => (2, 0x8000_0000),
        PipeDir::ChildWritesParentReads => (1, 0x4000_0000),
    }
}

// ---------------------------------------------------------------------------
// Waiting
// ---------------------------------------------------------------------------

/// An exit code as a signed number, bit for bit.
pub open spec fn signed_code(code: u32) -> int {
    if code < 0x8000_0000 { code as int } else { code - 0x1_0000_0000 }
}

pub fn exit_code_of(code: u32) -> (signed: i32)
    ensures
        signed == signed_code(code),
{
    if code < 0x8000_0000 {
        code as i32
    } else {
        -((u32::MAX - code) as i32) - 1
    }
}

/// What a look at a process without waiting says: nothing while it runs.
pub fn try_wait_result(code: u32) -> (exit: Option<i32>)
    ensures
        match exit {
            Some(exit) => code != STILL_ACTIVE && exit == signed_code(code),
            None => code == STILL_ACTIVE,
        },
{
    if code == STILL_ACTIVE {
        None
    } else {
        Some(exit_code_of(code))
    }
}

/// What the watcher of a finished child does after one slice of waiting.
#[derive(Clone, Copy, Debug, PartialEq, Eq, Structural)]
pub enum DrainStep {
    /// Wait for another slice.
    WaitAgain,
    /// Let the pipes drain, then leave.
    Drain,
    /// Leave: nobody is left to drain for.
    Leave,
}

/// One step of the watcher: a child that outlives its owner must not keep it
/// waiting for ever.
pub fn drain_step(wait_result: u32, owner_dropped: bool) -> (step: DrainStep)
    ensures
        step == if wait_result != WAIT_TIMEOUT {
            DrainStep::Drain
        } else if owner_dropped {
            DrainStep::Leave
        } else {
            DrainStep::WaitAgain
        },
{
    if wait_result != WAIT_TIMEOUT {
        DrainStep::Drain
    } else if owner_dropped {
        DrainStep::Leave
    } else {
        DrainStep::WaitAgain
    }
}

// ---------------------------------------------------------------------------
// Limits of a contained worker
// ---------------------------------------------------------------------------

/// The bounds of a contained worker. Memory is in bytes; what is not given is
/// not bounded.
#[derive(Clone, Copy, Debug, PartialEq, Eq, Structural)]
pub struct StrictWorkerLimits {
    pub active_processes: Option<u32>,
    pub process_memory_bytes: Option<u64>,
    pub job_memory_bytes: Option<u64>,
}

impl Default for StrictWorkerLimits {
    fn default() -> (limits: Self)
        ensures
            limits.active_processes is None,
            limits.process_memory_bytes is None,
            limits.job_memory_bytes is None,
    {
        StrictWorkerLimits {
            active_processes: None,
            process_memory_bytes: None,
            job_memory_bytes: None,
        }
    }
}

/// A bound that cannot be set.
#[derive(Clone, Copy, Debug, PartialEq, Eq, Structural)]
pub enum StrictWorkerLimitError {
    ZeroActiveProcesses,
    ZeroProcessMemory,
    ZeroJobMemory,
    ProcessMemoryTooLarge,
    JobMemoryTooLarge,
}

impl StrictWorkerLimitError {
    pub open spec fn name(self) -> Seq<char> {
        match self {
            StrictWorkerLimitError::ZeroActiveProcesses => "ZeroActiveProcesses"@,
            StrictWorkerLimitError::ZeroProcessMemory => "ZeroProcessMemory"@,
            StrictWorkerLimitError::ZeroJobMemory => "ZeroJobMemory"@,
            StrictWorkerLimitError::ProcessMemoryTooLarge => "ProcessMemoryTooLarge"@,
            StrictWorkerLimitError::JobMemoryTooLarge => "JobMemoryTooLarge"@,
        }
    }

    /// This error as a failure to configure a job.
    pub fn to_host_error(self) -> (error: HostError)
        ensures
            error.says(HostErrorKind::InvalidInput, "invalid strict worker limit: "@ + self.name()),
    {
        let name = match self {
            StrictWorkerLimitError::ZeroActiveProcesses => "ZeroActiveProcesses",
            StrictWorkerLimitError::ZeroProcessMemory => "ZeroProcessMemory",
            StrictWorkerLimitError::ZeroJobMemory => "ZeroJobMemory",
            StrictWorkerLimitError::ProcessMemoryTooLarge => "ProcessMemoryTooLarge",
            StrictWorkerLimitError::JobMemoryTooLarge => "JobMemoryTooLarge",
        };
        let message = join2("invalid strict worker limit: ", name);
        HostError::new(HostErrorKind::InvalidInput, message.as_str())
    }
}

/// The limits of a job in the host's terms.
#[derive(Clone, Copy, Debug, PartialEq, Eq, Structural)]
pub struct StrictWorkerJobConfiguration {
    pub limit_flags: u32,
    pub active_processes: Option<u32>,
    pub process_memory_bytes: Option<usize>,
    pub job_memory_bytes: Option<usize>,
}

/// The first bound that cannot be set, if any.
pub open spec fn limit_fault(limits: StrictWorkerLimits) -> Option<StrictWorkerLimitError> {
    if limits.active_processes == Some(0u32) {
        Some(StrictWorkerLimitError::ZeroActiveProcesses)
    } else if limits.process_memory_bytes == Some(0u64) {
        Some(StrictWorkerLimitError::ZeroProcessMemory)
    } else if limits.process_memory_bytes is Some && limits.process_memory_bytes->Some_0
        > usize::MAX {
        Some(StrictWorkerLimitError::ProcessMemoryTooLarge)
    } else if limits.job_memory_bytes == Some(0u64) {
        Some(StrictWorkerLimitError::ZeroJobMemory)
    } else if limits.job_memory_bytes is Some && limits.job_memory_bytes->Some_0 > usize::MAX {
        Some(StrictWorkerLimitError::JobMemoryTooLarge)
    } else {
        None
    }
}

/// The flags of a job: it always dies with its last handle, and it never lets a
/// process go.
pub open spec fn limit_flags_of(limits: StrictWorkerLimits) -> u32 {
    let flags = JOB_OBJECT_LIMIT_KILL_ON_JOB_CLOSE;
    let flags = if limits.active_processes is Some {
        flags | JOB_OBJECT_LIMIT_ACTIVE_PROCESS
    } else {
        flags
    };
    let flags = if limits.process_memory_bytes is Some {
        flags | JOB_OBJECT_LIMIT_PROCESS_MEMORY
    } else {
        flags
    };
    if limits.job_memory_bytes is Some { flags | JOB_OBJECT_LIMIT_JOB_MEMORY } else { flags }
}

impl StrictWorkerLimits {
    /// These bounds in the host's terms.
    pub fn job_configuration(self) -> (configuration: Result<
        StrictWorkerJobConfiguration,
        StrictWorkerLimitError,
    >)
        ensures
            match configuration {
                Ok(configuration) => {
                    &&& limit_fault(self) is None
                    &&& configuration.limit_flags == limit_flags_of(self)
                    &&& configuration.active_processes == self.active_processes
                    &&& match (self.process_memory_bytes, configuration.process_memory_bytes) {
                        (Some(asked), Some(set)) => asked == set,
                        (None, None) => true,
                        _ => false,
                    }
                    &&& match (self.job_memory_bytes, configuration.job_memory_bytes) {
                        (Some(asked), Some(set)) => asked == set,
                        (None, None) => true,
                        _ => false,
                    }
                },
                Err(error) => limit_fault(self) == Some(error),
            },
    {
        if let Some(count) = self.active_processes {
            if count == 0 {
                return Err(StrictWorkerLimitError::ZeroActiveProcesses);
            }
        }
        let process_memory_bytes = match self.process_memory_bytes {
            Some(bytes) => {
                if bytes == 0 {
                    return Err(StrictWorkerLimitError::ZeroProcessMemory);
                }
                if bytes > usize::MAX as u64 {
                    return Err(StrictWorkerLimitError::ProcessMemoryTooLarge);
                }
                Some(bytes as usize)
            },
            None => None,
        };
        let job_memory_bytes = match self.job_memory_bytes {
            Some(bytes) => {
                if bytes == 0 {
                    return Err(StrictWorkerLimitError::ZeroJobMemory);
                }
                if bytes > usize::MAX as u64 {
                    return Err(StrictWorkerLimitError::JobMemoryTooLarge);
                }
                Some(bytes as usize)
            },
            None => None,
        };
        let mut limit_flags: u32 = JOB_OBJECT_LIMIT_KILL_ON_JOB_CLOSE;
        if self.active_processes.is_some() {
            limit_flags = limit_flags | JOB_OBJECT_LIMIT_ACTIVE_PROCESS;
        }
        if process_memory_bytes.is_some() {
            limit_flags = limit_flags | JOB_OBJECT_LIMIT_PROCESS_MEMORY;
        }
        if job_memory_bytes.is_some() {
            limit_flags = limit_flags | JOB_OBJECT_LIMIT_JOB_MEMORY;
        }
        Ok(
            StrictWorkerJobConfiguration {
                limit_flags,
                active_processes: self.active_processes,
                process_memory_bytes,
                job_memory_bytes,
            },
        )
    }
}

/// Whatever is bounded, the job kills its processes when it is closed, and no
/// process may leave it.
pub proof fn strict_jobs_kill_and_hold(limits: StrictWorkerLimits)
    ensures
        limit_flags_of(limits) & JOB_OBJECT_LIMIT_KILL_ON_JOB_CLOSE != 0,
        limit_flags_of(limits) & JOB_OBJECT_LIMIT_BREAKAWAY_OK == 0,
{
    let k = 0x2000u32;
    let a = if limits.active_processes is Some { 8u32 } else { 0u32 };
    let p = if limits.process_memory_bytes is Some { 0x100u32 } else { 0u32 };
    let j = if limits.job_memory_bytes is Some { 0x200u32 } else { 0u32 };
    assert(k | 0u32 == k) by (bit_vector);
    assert((k | a) | 0u32 == (k | a)) by (bit_vector);
    assert(((k | a) | p) | 0u32 == ((k | a) | p)) by (bit_vector);
    assert(limit_flags_of(limits) == ((k | a) | p) | j);
    assert((((k | a) | p) | j) & 0x2000u32 != 0 && (((k | a) | p) | j) & 0x800u32 == 0)
        by (bit_vector)
        requires
            k == 0x2000u32,
            a == 8u32 || a == 0u32,
            p == 0x100u32 || p == 0u32,
            j == 0x200u32 || j == 0u32,
    ;
}

/// Whether resuming a worker that was created suspended found it suspended
/// exactly once: anything else means that someone else had a hand in it.
pub fn strict_resume_count_is_valid(previous: u32) -> (valid: bool)
    ensures
        valid == (previous == 1),
{
    previous == 1
}

// ---------------------------------------------------------------------------
// The launch of a contained worker
// ---------------------------------------------------------------------------

/// Where the launch or the end of a contained worker can fail.
#[derive(Clone, Copy, Debug, PartialEq, Eq, Structural)]
pub enum StrictWorkerSpawnStage {
    Pipe,
    CreateSuspended,
    CreateJob,
    ConfigureJob,
    AssignJob,
    Resume,
    Terminate,
    Reap,
}

/// The name of a stage in diagnostics.
pub open spec fn stage_name(stage: StrictWorkerSpawnStage) -> Seq<char> {
    match stage {
        StrictWorkerSpawnStage::Pipe => "Pipe"@,
        StrictWorkerSpawnStage::CreateSuspended => "CreateSuspended"@,
        StrictWorkerSpawnStage::CreateJob => "CreateJob"@,
        StrictWorkerSpawnStage::ConfigureJob => "ConfigureJob"@,
        StrictWorkerSpawnStage::AssignJob => "AssignJob"@,
        StrictWorkerSpawnStage::Resume => "Resume"@,
        StrictWorkerSpawnStage::Terminate => "Terminate"@,
        StrictWorkerSpawnStage::Reap => "Reap"@,
    }
}

fn stage_text(stage: StrictWorkerSpawnStage) -> (name: &'static str)
    ensures
        name@ == stage_name(stage),
{
    match stage {
        StrictWorkerSpawnStage::Pipe => "Pipe",
        StrictWorkerSpawnStage::CreateSuspended => "CreateSuspended",
        StrictWorkerSpawnStage::CreateJob => "CreateJob",
        StrictWorkerSpawnStage::ConfigureJob => "ConfigureJob",
        StrictWorkerSpawnStage::AssignJob => "AssignJob",
        StrictWorkerSpawnStage::Resume => "Resume",
        StrictWorkerSpawnStage::Terminate => "Terminate",
        StrictWorkerSpawnStage::Reap => "Reap",
    }
}

/// A worker that could not be ended.
#[derive(Debug)]
pub struct StrictWorkerCleanupError {
    stage: StrictWorkerSpawnStage,
    source: HostError,
}

impl StrictWorkerCleanupError {
    pub closed spec fn spec_stage(&self) -> StrictWorkerSpawnStage {
        self.stage
    }

    pub closed spec fn spec_source(&self) -> HostError {
        self.source
    }

    pub fn new(stage: StrictWorkerSpawnStage, source: HostError) -> (error: Self)
        ensures
            error.spec_stage() == stage,
            error.spec_source() == source,
    {
        StrictWorkerCleanupError { stage, source }
    }

    pub fn stage(&self) -> (stage: StrictWorkerSpawnStage)
        ensures
            stage == self.spec_stage(),
    {
        self.stage
    }

    pub fn message(&self) -> (message: String)
        ensures
            message@ == self.spec_source().message@,
    {
        self.source.message.clone()
    }

    pub fn raw_os_error(&self) -> (code: Option<i32>)
        ensures
            code == self.spec_source().code,
    {
        self.source.code
    }

    /// A sentence for people.
    pub fn describe(&self) -> (text: String)
        ensures
            text@ == "strict worker cleanup failed at "@ + stage_name(self.spec_stage()) + ": "@
                + self.spec_source().message@,
    {
        let front = join3("strict worker cleanup failed at ", stage_text(self.stage), ": ");
        join2(front.as_str(), self.source.message.as_str())
    }
}

/// A worker that could not be started, and what went wrong in cleaning up.
#[derive(Debug)]
pub struct StrictWorkerSpawnError {
    stage: StrictWorkerSpawnStage,
    source: HostError,
    cleanup: Option<StrictWorkerCleanupError>,
}

impl StrictWorkerSpawnError {
    pub closed spec fn spec_stage(&self) -> StrictWorkerSpawnStage {
        self.stage
    }

    pub closed spec fn spec_source(&self) -> HostError {
        self.source
    }

    pub closed spec fn spec_cleanup(&self) -> Option<StrictWorkerCleanupError> {
        self.cleanup
    }

    pub fn new(
        stage: StrictWorkerSpawnStage,
        source: HostError,
        cleanup: Option<StrictWorkerCleanupError>,
    ) -> (error: Self)
        ensures
            error.spec_stage() == stage,
            error.spec_source() == source,
            error.spec_cleanup() == cleanup,
    {
        StrictWorkerSpawnError { stage, source, cleanup }
    }

    pub fn stage(&self) -> (stage: StrictWorkerSpawnStage)
        ensures
            stage == self.spec_stage(),
    {
        self.stage
    }

    pub fn cleanup(&self) -> (cleanup: Option<&StrictWorkerCleanupError>)
        ensures
            match (cleanup, self.spec_cleanup()) {
                (Some(cleanup), Some(expected)) => *cleanup == expected,
                (None, None) => true,
                _ => false,
            },
    {
        match &self.cleanup {
            Some(cleanup) => Some(cleanup),
            None => None,
        }
    }

    /// A sentence for people.
    pub fn describe(&self) -> (text: String)
        ensures
            text@ == "strict worker spawn failed at "@ + stage_name(self.spec_stage()) + ": "@
                + self.spec_source().message@,
    {
        let front = join3("strict worker spawn failed at ", stage_text(self.stage), ": ");
        join2(front.as_str(), self.source.message.as_str())
    }
}

/// Where a launch stands.
#[derive(Clone, Copy, Debug, PartialEq, Eq, Structural)]
pub enum LaunchStage {
    Pipes,
    CheckLimits,
    CreateJob,
    ConfigureJob,
    CreateSuspended,
    Assign,
    Resume,
    /// The worker runs, in its job.
    Running,
    /// Nothing was created that would have to be ended.
    FailedClean { at: StrictWorkerSpawnStage },
    /// The worker is not in its job: end it by its own handle, then wait for it.
    FailedOutsideJob,
    /// The worker is in its job: close the job, then wait for the worker.
    FailedInsideJob,
}

/// The stage after the work of `stage` was tried. The job is made before the
/// worker, so that a job that cannot be had leaves no worker behind; and the
/// worker is put in its job before it runs.
pub open spec fn launch_next(stage: LaunchStage, succeeded: bool) -> LaunchStage {
    if succeeded {
        match stage {
            LaunchStage::Pipes => LaunchStage::CheckLimits,
            LaunchStage::CheckLimits => LaunchStage::CreateJob,
            LaunchStage::CreateJob => LaunchStage::ConfigureJob,
            LaunchStage::ConfigureJob => LaunchStage::CreateSuspended,
            LaunchStage::CreateSuspended => LaunchStage::Assign,
            LaunchStage::Assign => LaunchStage::Resume,
            LaunchStage::Resume => LaunchStage::Running,
            other => other,
        }
    } else {
        match stage {
            LaunchStage::Pipes => LaunchStage::FailedClean { at: StrictWorkerSpawnStage::Pipe },
            LaunchStage::CheckLimits => LaunchStage::FailedClean {
                at: StrictWorkerSpawnStage::ConfigureJob,
            },
            LaunchStage::CreateJob => LaunchStage::FailedClean {
                at: StrictWorkerSpawnStage::CreateJob,
            },
            LaunchStage::ConfigureJob => LaunchStage::FailedClean {
                at: StrictWorkerSpawnStage::ConfigureJob,
            },
            LaunchStage::CreateSuspended => LaunchStage::FailedClean {
                at: StrictWorkerSpawnStage::CreateSuspended,
            },
            LaunchStage::Assign => LaunchStage::FailedOutsideJob,
            LaunchStage::Resume => LaunchStage::FailedInsideJob,
            other => other,
        }
    }
}

impl LaunchStage {
    pub fn next(self, succeeded: bool) -> (stage: LaunchStage)
        ensures
            stage == launch_next(self, succeeded),
    {
        if succeeded {
            match self {
                LaunchStage::Pipes => LaunchStage::CheckLimits,
                LaunchStage::CheckLimits => LaunchStage::CreateJob,
                LaunchStage::CreateJob => LaunchStage::ConfigureJob,
                LaunchStage::ConfigureJob => LaunchStage::CreateSuspended,
                LaunchStage::CreateSuspended => LaunchStage::Assign,
                LaunchStage::Assign => LaunchStage::Resume,
                LaunchStage::Resume => LaunchStage::Running,
                other => other,
            }
        } else {
            match self {
                LaunchStage::Pipes => LaunchStage::FailedClean { at: StrictWorkerSpawnStage::Pipe },
                LaunchStage::CheckLimits => LaunchStage::FailedClean {
                    at: StrictWorkerSpawnStage::ConfigureJob,
                },
                LaunchStage::CreateJob => LaunchStage::FailedClean {
                    at: StrictWorkerSpawnStage::CreateJob,
                },
                LaunchStage::ConfigureJob => LaunchStage::FailedClean {
                    at: StrictWorkerSpawnStage::ConfigureJob,
                },
                LaunchStage::CreateSuspended => LaunchStage::FailedClean {
                    at: StrictWorkerSpawnStage::CreateSuspended,
                },
                LaunchStage::Assign => LaunchStage::FailedOutsideJob,
                LaunchStage::Resume => LaunchStage::FailedInsideJob,
                other => other,
            }
        }
    }

    /// The stage that a failed launch is reported with.
    pub fn failed_at(self) -> (stage: Option<StrictWorkerSpawnStage>)
        ensures
            stage == match self {
                LaunchStage::FailedClean { at } => Some(at),
                LaunchStage::FailedOutsideJob => Some(StrictWorkerSpawnStage::AssignJob),
                LaunchStage::FailedInsideJob => Some(StrictWorkerSpawnStage::Resume),
                _ => None,
            },
    {
        match self {
            LaunchStage::FailedClean { at } => Some(at),
            LaunchStage::FailedOutsideJob => Some(StrictWorkerSpawnStage::AssignJob),
            LaunchStage::FailedInsideJob => Some(StrictWorkerSpawnStage::Resume),
            _ => None,
        }
    }
}

/// The stage that a history of outcomes leads to.
pub open spec fn launch_after(outcomes: Seq<bool>) -> LaunchStage
    decreases outcomes.len(),
{
    if outcomes.len() == 0 {
        LaunchStage::Pipes
    } else {
        launch_next(launch_after(outcomes.drop_last()), outcomes.last())
    }
}

spec fn tried(outcomes: Seq<bool>, count: int) -> bool {
    forall|i: int| 0 <= i < count ==> #[trigger] outcomes[i]
}

proof fn lemma_launch_history(outcomes: Seq<bool>)
    ensures
        match launch_after(outcomes) {
            LaunchStage::Pipes => outcomes.len() == 0,
            LaunchStage::CheckLimits => outcomes.len() == 1 && tried(outcomes, 1),
            LaunchStage::CreateJob => outcomes.len() == 2 && tried(outcomes, 2),
            LaunchStage::ConfigureJob => outcomes.len() == 3 && tried(outcomes, 3),
            LaunchStage::CreateSuspended => outcomes.len() == 4 && tried(outcomes, 4),
            LaunchStage::Assign => outcomes.len() == 5 && tried(outcomes, 5),
            LaunchStage::Resume => outcomes.len() == 6 && tried(outcomes, 6),
            LaunchStage::Running => outcomes.len() >= 7 && tried(outcomes, 7),
            LaunchStage::FailedClean { at } => outcomes.len() >= 1,
            LaunchStage::FailedOutsideJob => outcomes.len() >= 6 && tried(outcomes, 5)
                && !outcomes[5],
            LaunchStage::FailedInsideJob => outcomes.len() >= 7 && tried(outcomes, 6)
                && !outcomes[6],
        },
    decreases outcomes.len(),
{
    if outcomes.len() > 0 {
        let before = outcomes.drop_last();
        lemma_launch_history(before);
        assert forall|i: int| 0 <= i < before.len() implies #[trigger] outcomes[i] == before[i] by {
        }
    }
}

/// A worker is resumed only after its creation and its assignment to the job
/// succeeded, and counts as running only after it was resumed; one that is ended
/// by its own handle was never in the job.
pub proof fn workers_run_only_contained(outcomes: Seq<bool>)
    ensures
        launch_after(outcomes) == LaunchStage::Resume ==> outcomes.len() == 6 && outcomes[4]
            && outcomes[5],
        launch_after(outcomes) == LaunchStage::Running ==> outcomes.len() >= 7 && outcomes[4]
            && outcomes[5] && outcomes[6],
        launch_after(outcomes) == LaunchStage::FailedOutsideJob ==> outcomes[4] && !outcomes[5],
{
    lemma_launch_history(outcomes);
}

// ---------------------------------------------------------------------------
// The end of a contained worker
// ---------------------------------------------------------------------------

/// What waiting for a worker to exit came to. `native` is the host's own error,
/// where waiting failed.
pub fn reap_result(wait_result: u32, native: HostError) -> (cleanup: Option<
    StrictWorkerCleanupError,
>)
    ensures
        match cleanup {
            None => wait_result == WAIT_OBJECT_0,
            Some(error) => {
                &&& wait_result != WAIT_OBJECT_0
                &&& error.spec_stage() == StrictWorkerSpawnStage::Reap
                &&& if wait_result == WAIT_TIMEOUT {
                    error.spec_source().says(
                        HostErrorKind::TimedOut,
                        "strict worker did not exit after containment cleanup"@,
                    )
                } else {
                    error.spec_source() == native
                }
            },
        },
{
    if wait_result == WAIT_OBJECT_0 {
        None
    } else if wait_result == WAIT_TIMEOUT {
        Some(
            StrictWorkerCleanupError::new(
                StrictWorkerSpawnStage::Reap,
                HostError::new(
                    HostErrorKind::TimedOut,
                    "strict worker did not exit after containment cleanup",
                ),
            ),
        )
    } else {
        Some(StrictWorkerCleanupError::new(StrictWorkerSpawnStage::Reap, native))
    }
}

/// What ending a worker by its own handle came to. A worker that has already
/// exited may refuse to be terminated; that it could be waited for is enough.
pub fn terminate_and_reap(terminate: Option<HostError>, reap: Option<StrictWorkerCleanupError>) -> (
    cleanup: Option<StrictWorkerCleanupError>)
    ensures
        match (terminate, reap, cleanup) {
            (_, None, None) => true,
            (Some(source), Some(_), Some(error)) => error.spec_stage()
                == StrictWorkerSpawnStage::Terminate && error.spec_source() == source,
            (None, Some(reap), Some(error)) => error == reap,
            _ => false,
        },
{
    match (terminate, reap) {
        (_, None) => None,
        (Some(source), Some(_)) => Some(
            StrictWorkerCleanupError::new(StrictWorkerSpawnStage::Terminate, source),
        ),
        (None, Some(reap)) => Some(reap),
    }
}

/// What the shutdown of a worker has to do.
#[derive(Clone, Copy, Debug, PartialEq, Eq, Structural)]
pub enum ShutdownWork {
    /// The worker is gone already.
    Nothing,
    /// Wait for the worker, which the closing of its job has ended.
    Reap,
    /// End the worker once more, then wait for it.
    TerminateAndReap,
}

/// Which handles of a worker are still held.
#[derive(Clone, Copy, Debug, PartialEq, Eq, Structural)]
pub struct StrictWorkerState {
    pub process: bool,
    pub job: bool,
}

impl StrictWorkerState {
    /// A worker that was just launched.
    pub fn launched() -> (state: Self)
        ensures
            state.process && state.job,
    {
        StrictWorkerState { process: true, job: true }
    }

    /// Starts a shutdown: the job is closed first, which ends the worker and
    /// everything that it started. An explicit second attempt ends the worker by
    /// its own handle.
    pub fn begin_shutdown(&mut self, retry_termination: bool) -> (work: ShutdownWork)
        ensures
            !final(self).job,
            final(self).process == old(self).process,
            work == if !old(self).process {
                ShutdownWork::Nothing
            } else if retry_termination && !old(self).job {
                ShutdownWork::TerminateAndReap
            } else {
                ShutdownWork::Reap
            },
    {
        let closed_job = self.job;
        self.job = false;
        if !self.process {
            ShutdownWork::Nothing
        } else if retry_termination && !closed_job {
            ShutdownWork::TerminateAndReap
        } else {
            ShutdownWork::Reap
        }
    }

    /// Ends a shutdown. A worker that could not be waited for keeps its handle,
    /// so that a later call can try again.
    pub fn end_shutdown(&mut self, succeeded: bool)
        ensures
            final(self).job == old(self).job,
            final(self).process == (old(self).process && !succeeded),
    {
        if succeeded {
            self.process = false;
        }
    }
}

/// Each wish has a bit of its own: the flags are the sum of those that are wished for.
pub proof fn flags_add_up(breakaway: bool, show_console: bool, own_environment: bool)
    ensures
        flags_of(CreateMode::Daemon { breakaway }, own_environment) == 0x0008_0208 + (
        if breakaway { 0x0100_0000int } else { 0 }) + (if own_environment { 0x400int } else { 0 }),
        flags_of(CreateMode::Contained { show_console }, own_environment) == 0x0008_0004 + (
        if show_console { 0int } else { 0x0800_0000 }) + (if own_environment { 0x400int } else {
            0
        }),
{
    assert((0x80000u32 | 8u32 | 0x200u32) == 0x80208u32 && (0x80000u32 | 8u32 | 0x200u32
        | 0x1000000u32) == 0x1080208u32 && (0x80208u32 | 0x400u32) == 0x80608u32 && (0x1080208u32
        | 0x400u32) == 0x1080608u32 && (0x80000u32 | 4u32) == 0x80004u32 && (0x80000u32 | 4u32
        | 0x8000000u32) == 0x8080004u32 && (0x80004u32 | 0x400u32) == 0x80404u32 && (0x8080004u32
        | 0x400u32) == 0x8080404u32) by (bit_vector);
}

/// The same of the limits of a job.
pub proof fn limit_flags_add_up(limits: StrictWorkerLimits)
    ensures
        limit_flags_of(limits) == 0x2000 + (if limits.active_processes is Some { 8int } else { 0 })
            + (if limits.process_memory_bytes is Some { 0x100int } else { 0 }) + (
        if limits.job_memory_bytes is Some { 0x200int } else { 0 }),
{
    assert((0x2000u32 | 8u32) == 0x2008u32 && (0x2000u32 | 0x100u32) == 0x2100u32 && (0x2008u32
        | 0x100u32) == 0x2108u32 && (0x2000u32 | 0x200u32) == 0x2200u32 && (0x2008u32 | 0x200u32)
        == 0x2208u32 && (0x2100u32 | 0x200u32) == 0x2300u32 && (0x2108u32 | 0x200u32) == 0x2308u32)
        by (bit_vector);
}

/// Limits are accepted only where each is left open or is above zero and within the machine's
/// reach, and a single one that is not is told by name.
pub proof fn limits_are_above_zero(limits: StrictWorkerLimits)
    ensures
        limit_fault(limits) is None <==> {
            &&& limits.active_processes is None || limits.active_processes->Some_0 > 0
            &&& limits.process_memory_bytes is None || 0 < limits.process_memory_bytes->Some_0
                <= usize::MAX
            &&& limits.job_memory_bytes is None || 0 < limits.job_memory_bytes->Some_0 <= usize::MAX
        },
        limit_fault(limits) == Some(StrictWorkerLimitError::ZeroActiveProcesses)
            <==> limits.active_processes == Some(0u32),
        limit_fault(limits) == Some(StrictWorkerLimitError::ZeroProcessMemory)
            ==> limits.process_memory_bytes == Some(0u64),
        limit_fault(limits) == Some(StrictWorkerLimitError::ZeroJobMemory)
            ==> limits.job_memory_bytes == Some(0u64),
        limit_fault(limits) == Some(StrictWorkerLimitError::ProcessMemoryTooLarge)
            ==> limits.process_memory_bytes->Some_0 > usize::MAX,
        limit_fault(limits) == Some(StrictWorkerLimitError::JobMemoryTooLarge)
            ==> limits.job_memory_bytes->Some_0 > usize::MAX,
{
}

/// A code read as signed is the same code, thirty-two bits round.
pub proof fn signed_codes_are_the_same_bits(code: u32)
    ensures
        i32::MIN <= signed_code(code) <= i32::MAX,
        signed_code(code) == code || signed_code(code) + 0x1_0000_0000 == code,
{
}

/// A launch whose steps all succeed goes through them in order and leaves the worker running;
/// one that fails is told by the step that failed.
pub proof fn launches_go_step_by_step(outcomes: Seq<bool>)
    requires
        forall|i: int| 0 <= i < outcomes.len() ==> outcomes[i],
    ensures
        outcomes.len() == 0 ==> launch_after(outcomes) == LaunchStage::Pipes,
        outcomes.len() == 1 ==> launch_after(outcomes) == LaunchStage::CheckLimits,
        outcomes.len() == 2 ==> launch_after(outcomes) == LaunchStage::CreateJob,
        outcomes.len() == 3 ==> launch_after(outcomes) == LaunchStage::ConfigureJob,
        outcomes.len() == 4 ==> launch_after(outcomes) == LaunchStage::CreateSuspended,
        outcomes.len() == 5 ==> launch_after(outcomes) == LaunchStage::Assign,
        outcomes.len() == 6 ==> launch_after(outcomes) == LaunchStage::Resume,
        outcomes.len() >= 7 ==> launch_after(outcomes) == LaunchStage::Running,
        launch_after(outcomes.push(false)) == if outcomes.len() == 0 {
            LaunchStage::FailedClean { at: StrictWorkerSpawnStage::Pipe }
        } else if outcomes.len() == 1 || outcomes.len() == 3 {
            LaunchStage::FailedClean { at: StrictWorkerSpawnStage::ConfigureJob }
        } else if outcomes.len() == 2 {
            LaunchStage::FailedClean { at: StrictWorkerSpawnStage::CreateJob }
        } else if outcomes.len() == 4 {
            LaunchStage::FailedClean { at: StrictWorkerSpawnStage::CreateSuspended }
        } else if outcomes.len() == 5 {
            LaunchStage::FailedOutsideJob
        } else if outcomes.len() == 6 {
            LaunchStage::FailedInsideJob
        } else {
            LaunchStage::Running
        },
    decreases outcomes.len(),
{
    assert(outcomes.push(false).drop_last() =~= outcomes);
    if outcomes.len() > 0 {
        launches_go_step_by_step(outcomes.drop_last());
    }
}

/// A second attempt asks for the same but for one bit, is made only where that bit was asked for
/// and refused, and is never followed by a third.
pub proof fn second_attempts_ask_for_less(
    flags: u32,
    code: Option<i32>,
    again: Option<u32>,
    once_more: Option<u32>,
)
    requires
        call_ensures(retry_flags, (flags, code), again),
        again is Some ==> call_ensures(retry_flags, (again->Some_0, code), once_more),
    ensures
        again is Some <==> code == Some(5i32) && (flags / 0x0100_0000) % 2 == 1,
        again is Some ==> flags == again->Some_0 + 0x0100_0000,
        again is Some ==> once_more is None,
{
    assert((flags & 0x0100_0000u32 != 0) <==> (flags / 0x0100_0000u32) % 2 == 1) by (bit_vector);
    assert((flags & 0x0100_0000u32 != 0) ==> flags == (flags & !0x0100_0000u32) + 0x0100_0000u32)
        by (bit_vector);
    assert((flags & !0x0100_0000u32) & 0x0100_0000u32 == 0) by (bit_vector);
}

/// The child reads from its input alone, and writes to the others, wherever they lead; only a
/// parent without the stream is replaced by nothing.
pub proof fn streams_go_one_way(
    source: StdioSource,
    dir: SlotDir,
    parent_has_stream: bool,
    plan: SlotPlan,
)
    requires
        call_ensures(resolve_slot, (source, dir, parent_has_stream), plan),
    ensures
        match plan {
            SlotPlan::OpenNull { write } => {
                &&& write <==> dir != SlotDir::Stdin
                &&& source == StdioSource::Null || source == StdioSource::Parent
                    && !parent_has_stream
            },
            SlotPlan::DuplicateParent => source == StdioSource::Parent && parent_has_stream,
            SlotPlan::DuplicateFile => source == StdioSource::File,
            SlotPlan::CreatePipe { dir: way } => source == StdioSource::Pipe && (way
                == PipeDir::ParentWritesChildReads <==> dir == SlotDir::Stdin),
        },
{
}

/// A process is running while its code says so, and two that ended with one code had the same.
pub proof fn codes_tell_exits_apart(first: u32, second: u32, one: Option<i32>, two: Option<i32>)
    requires
        call_ensures(try_wait_result, (first,), one),
        call_ensures(try_wait_result, (second,), two),
    ensures
        one is None <==> first == 259,
        one is Some && one->Some_0 >= 0 ==> one->Some_0 == first,
        one == two ==> first == second,
{
}

/// Output is drained as soon as the process is gone, and given up only where the owner is.
pub proof fn drains_wait_for_their_owner(waited: u32, owner_dropped: bool, step: DrainStep)
    requires
        call_ensures(drain_step, (waited, owner_dropped), step),
    ensures
        step == DrainStep::Drain <==> waited != 0x102,
        step == DrainStep::Leave <==> waited == 0x102 && owner_dropped,
{
}

} // verus!
