//! Between callers and the process substrate: what is asked of it, and what its
//! answers mean.
use vstd::prelude::*;

use crate::host::{HostError, HostErrorKind};
use crate::windows::process::ProcessInspectErrorKind;

verus! {

// ---------------------------------------------------------------------------
// Lifetimes
// ---------------------------------------------------------------------------

/// Whose end a child is not to outlive.
#[derive(Clone, Copy, Debug, PartialEq, Eq, Structural)]
pub enum LifetimeOwner {
    /// The process that spawned it.
    Spawner,
    /// Some other process.
    Process(u32),
}

/// How a lifetime is enforced.
#[derive(Clone, Copy, Debug, PartialEq, Eq, Structural)]
pub enum LifetimeEnforcement {
    /// By the kernel, whatever happens to this process.
    Kernel,
    /// By a watch in this process.
    Watched,
}

/// Whether the substrate itself can tie the child to its owner.
pub open spec fn spawner_owned(owner: Option<LifetimeOwner>) -> bool {
    owner == Some(LifetimeOwner::Spawner)
}

pub fn binds_to_spawner(owner: Option<LifetimeOwner>) -> (binds: bool)
    ensures
        binds == spawner_owned(owner),
{
    match owner {
        Some(LifetimeOwner::Spawner) => true,
        _ => false,
    }
}

/// The process that has to be watched for a child, if any.
pub fn owner_to_watch(owner: Option<LifetimeOwner>) -> (pid: Option<u32>)
    ensures
        pid == match owner {
            Some(LifetimeOwner::Process(pid)) => Some(pid),
            _ => None,
        },
{
    match owner {
        Some(LifetimeOwner::Process(pid)) => Some(pid),
        _ => None,
    }
}

/// How a child is bound to its owner.
#[derive(Clone, Copy, Debug, PartialEq, Eq, Structural)]
pub struct LifetimeBinding {
    enforcement: Option<LifetimeEnforcement>,
    watching: bool,
}

impl LifetimeBinding {
    pub closed spec fn spec_enforcement(&self) -> Option<LifetimeEnforcement> {
        self.enforcement
    }

    /// Whether a watch runs on behalf of the child.
    pub closed spec fn spec_watching(&self) -> bool {
        self.watching
    }

    pub fn unbound() -> (binding: Self)
        ensures
            binding.spec_enforcement() is None,
            !binding.spec_watching(),
    {
        LifetimeBinding { enforcement: None, watching: false }
    }

    /// The binding of a child. `enforced` is how the host enforces the owner, and
    /// `watched` whether a watch of the owner was opened.
    pub fn bind(
        owner: Option<LifetimeOwner>,
        enforced: LifetimeEnforcement,
        watched: bool,
    ) -> (binding: Self)
        ensures
            match owner {
                None => binding.spec_enforcement() is None && !binding.spec_watching(),
                Some(_) => binding.spec_enforcement() == Some(enforced) && binding.spec_watching()
                    == watched,
            },
    {
        match owner {
            None => LifetimeBinding::unbound(),
            Some(_) => LifetimeBinding { enforcement: Some(enforced), watching: watched },
        }
    }

    pub fn enforcement(&self) -> (enforcement: Option<LifetimeEnforcement>)
        ensures
            enforcement == self.spec_enforcement(),
    {
        self.enforcement
    }

    /// Ends the watch. How the lifetime was enforced can still be told.
    pub fn release(&mut self)
        ensures
            !final(self).spec_watching(),
            final(self).spec_enforcement() == old(self).spec_enforcement(),
    {
        self.watching = false;
    }
}

/// What the watch of an owner does when it ends: it kills the child it knew, and
/// only if it saw the owner exit.
pub fn kills_child(owner_exited: bool, child: Option<u64>) -> (kills: Option<u64>)
    ensures
        kills == if owner_exited { child } else { None::<u64> },
{
    if owner_exited {
        child
    } else {
        None
    }
}

/// A bounded run ends before it returns, so that it can only be bound to its
/// spawner.
pub fn check_bounded_owner(owner: Option<LifetimeOwner>) -> (checked: Result<
    (),
    BoundedProcessError,
>)
    ensures
        match checked {
            Ok(()) => !(owner is Some && owner->Some_0 is Process),
            Err(BoundedProcessError::Io(error)) => owner is Some && owner->Some_0 is Process
                && error.says(
                HostErrorKind::InvalidInput,
                "a bounded run binds only to its spawner; use SpawnSpec::spawn for another owner"@,
            ),
            Err(_) => false,
        },
{
    match owner {
        Some(LifetimeOwner::Process(_)) => Err(
            BoundedProcessError::Io(
                HostError::new(
                    HostErrorKind::InvalidInput,
                    "a bounded run binds only to its spawner; use SpawnSpec::spawn for another owner",
                ),
            ),
        ),
        _ => Ok(()),
    }
}

/// A failed inspection as a failure of the host.
pub fn inspect_error_kind(kind: ProcessInspectErrorKind) -> (mapped: HostErrorKind)
    ensures
        mapped == match kind {
            ProcessInspectErrorKind::InvalidPid => HostErrorKind::InvalidInput,
            ProcessInspectErrorKind::NotFound => HostErrorKind::NotFound,
            ProcessInspectErrorKind::Unsupported => HostErrorKind::Unsupported,
            ProcessInspectErrorKind::Host => HostErrorKind::Other,
        },
{
    match kind {
        ProcessInspectErrorKind::InvalidPid => HostErrorKind::InvalidInput,
        ProcessInspectErrorKind::NotFound => HostErrorKind::NotFound,
        ProcessInspectErrorKind::Unsupported => HostErrorKind::Unsupported,
        ProcessInspectErrorKind::Host => HostErrorKind::Other,
    }
}

// ---------------------------------------------------------------------------
// Requests
// ---------------------------------------------------------------------------

/// What a standard stream of a child is.
#[derive(Clone, Copy, Debug, PartialEq, Eq, Structural)]
pub enum StreamMode {
    Inherit,
    Piped,
    Null,
}

/// A child to start. Its texts are of the host's own kind and pass through as they
/// are.
#[derive(Debug)]
pub struct SpawnSpec<T> {
    pub program: T,
    pub args: Vec<T>,
    pub current_dir: Option<T>,
    pub env: Vec<(T, T)>,
    pub clear_env: bool,
    pub stdin: StreamMode,
    pub stdout: StreamMode,
    pub stderr: StreamMode,
    pub create_process_group: bool,
    pub lifetime_owner: Option<LifetimeOwner>,
}

/// What the substrate is asked for.
#[derive(Debug)]
pub struct SubstrateSpec<T> {
    pub program: T,
    pub args: Vec<T>,
    pub current_dir: Option<T>,
    pub env: Vec<(T, T)>,
    pub clear_env: bool,
    pub stdin: StreamMode,
    pub stdout: StreamMode,
    pub stderr: StreamMode,
    pub create_process_group: bool,
    pub kill_when_owner_dies: bool,
}

/// A request to the substrate. Of the owner it only learns whether that is the
/// spawner: no other can be expressed to it.
pub fn builder<T>(spec: SpawnSpec<T>) -> (request: SubstrateSpec<T>)
    ensures
        request.program == spec.program,
        request.args == spec.args,
        request.current_dir == spec.current_dir,
        request.env == spec.env,
        request.clear_env == spec.clear_env,
        request.stdin == spec.stdin,
        request.stdout == spec.stdout,
        request.stderr == spec.stderr,
        request.create_process_group == spec.create_process_group,
        request.kill_when_owner_dies == spawner_owned(spec.lifetime_owner),
{
    let kill_when_owner_dies = binds_to_spawner(spec.lifetime_owner);
    SubstrateSpec {
        program: spec.program,
        args: spec.args,
        current_dir: spec.current_dir,
        env: spec.env,
        clear_env: spec.clear_env,
        stdin: spec.stdin,
        stdout: spec.stdout,
        stderr: spec.stderr,
        create_process_group: spec.create_process_group,
        kill_when_owner_dies,
    }
}

/// A request for a bounded run: nothing to read, both outputs captured, and a group
/// of its own so that it can be ended as a whole, whatever was asked for.
pub fn bounded_request<T>(spec: SpawnSpec<T>) -> (request: Result<
    SubstrateSpec<T>,
    BoundedProcessError,
>)
    ensures
        match request {
            Ok(request) => {
                &&& !(spec.lifetime_owner is Some && spec.lifetime_owner->Some_0 is Process)
                &&& request.program == spec.program
                &&& request.args == spec.args
                &&& request.current_dir == spec.current_dir
                &&& request.env == spec.env
                &&& request.clear_env == spec.clear_env
                &&& request.stdin == StreamMode::Null
                &&& request.stdout == StreamMode::Piped
                &&& request.stderr == StreamMode::Piped
                &&& request.create_process_group
                &&& request.kill_when_owner_dies == spawner_owned(spec.lifetime_owner)
            },
            Err(BoundedProcessError::Io(error)) => spec.lifetime_owner is Some
                && spec.lifetime_owner->Some_0 is Process && error.says(
                HostErrorKind::InvalidInput,
                "a bounded run binds only to its spawner; use SpawnSpec::spawn for another owner"@,
            ),
            Err(_) => false,
        },
{
    match check_bounded_owner(spec.lifetime_owner) {
        Ok(()) => {},
        Err(error) => {
            return Err(error);
        },
    }
    let mut request = builder(spec);
    request.stdin = StreamMode::Null;
    request.stdout = StreamMode::Piped;
    request.stderr = StreamMode::Piped;
    request.create_process_group = true;
    Ok(request)
}

// ---------------------------------------------------------------------------
// Sessions
// ---------------------------------------------------------------------------

/// What is done about output after the child has exited.
#[derive(Clone, Copy, Debug, PartialEq, Eq, Structural)]
pub enum ProcessPostExitDrain {
    WaitForEof,
    AbandonAfter { nanos: u64 },
}

/// What a session is to keep to.
#[derive(Clone, Copy, Debug, PartialEq, Eq, Structural)]
pub struct ProcessSessionOptions {
    pub max_queued_chunks: usize,
    pub max_chunk_bytes: usize,
    pub post_exit_drain: ProcessPostExitDrain,
    pub kill_on_drop: bool,
}

/// The same in the terms of the substrate.
#[derive(Clone, Copy, Debug, PartialEq, Eq, Structural)]
pub struct SubstrateOptions {
    pub max_queued_chunks: usize,
    pub max_chunk_bytes: usize,
    pub post_exit_grace_nanos: Option<u64>,
    pub kill_on_drop: bool,
}

pub fn session_options(options: ProcessSessionOptions) -> (substrate: SubstrateOptions)
    ensures
        substrate.max_queued_chunks == options.max_queued_chunks,
        substrate.max_chunk_bytes == options.max_chunk_bytes,
        substrate.kill_on_drop == options.kill_on_drop,
        substrate.post_exit_grace_nanos == match options.post_exit_drain {
            ProcessPostExitDrain::WaitForEof => None,
            ProcessPostExitDrain::AbandonAfter { nanos } => Some(nanos),
        },
{
    SubstrateOptions {
        max_queued_chunks: options.max_queued_chunks,
        max_chunk_bytes: options.max_chunk_bytes,
        post_exit_grace_nanos: post_exit_grace(options.post_exit_drain),
        kill_on_drop: options.kill_on_drop,
    }
}

/// How long output is waited for after the exit; without end, if not bounded.
pub fn post_exit_grace(drain: ProcessPostExitDrain) -> (grace: Option<u64>)
    ensures
        grace == match drain {
            ProcessPostExitDrain::WaitForEof => None,
            ProcessPostExitDrain::AbandonAfter { nanos } => Some(nanos),
        },
{
    match drain {
        ProcessPostExitDrain::WaitForEof => None,
        ProcessPostExitDrain::AbandonAfter { nanos } => Some(nanos),
    }
}

/// An output stream of a child.
#[derive(Clone, Copy, Debug, PartialEq, Eq, Structural)]
pub enum StreamKind {
    Stdout,
    Stderr,
}

/// What happened on an output stream.
#[derive(Debug)]
pub enum SessionEvent {
    Chunk { stream: StreamKind, bytes: Vec<u8> },
    StreamEof(StreamKind),
    StreamAbandoned(StreamKind),
    StreamError { stream: StreamKind, error: HostError },
}

/// Output of a child, by stream.
#[derive(Debug)]
pub enum ProcessOutputChunk {
    Stdout(Vec<u8>),
    Stderr(Vec<u8>),
}

/// Why a stream ended before its end.
#[derive(Debug)]
pub struct ProcessOutputFault {
    error: HostError,
}

impl ProcessOutputFault {
    pub closed spec fn spec_error(&self) -> HostError {
        self.error
    }

    pub fn new(error: HostError) -> (fault: Self)
        ensures
            fault.spec_error() == error,
    {
        ProcessOutputFault { error }
    }

    pub fn kind(&self) -> (kind: HostErrorKind)
        ensures
            kind == self.spec_error().kind,
    {
        self.error.kind
    }

    pub fn message(&self) -> (message: &str)
        ensures
            message@ == self.spec_error().message@,
    {
        self.error.message.as_str()
    }

    pub fn raw_os_error(&self) -> (code: Option<i32>)
        ensures
            code == self.spec_error().code,
    {
        self.error.code
    }
}

/// How a stream ended.
#[derive(Debug)]
pub enum ProcessOutputCompletion {
    StdoutEof,
    StderrEof,
    StdoutAbandoned,
    StderrAbandoned,
    StdoutError(ProcessOutputFault),
    StderrError(ProcessOutputFault),
}

/// What a session tells its caller.
#[derive(Debug)]
pub enum ProcessOutputEvent {
    Chunk(ProcessOutputChunk),
    Completion(ProcessOutputCompletion),
}

/// What happened on a stream, as callers see it. Nothing is lost of a fault.
pub fn output_event(event: SessionEvent) -> (seen: ProcessOutputEvent)
    ensures
        match (event, seen) {
            (
                SessionEvent::Chunk { stream: StreamKind::Stdout, bytes },
                ProcessOutputEvent::Chunk(ProcessOutputChunk::Stdout(seen)),
            ) => seen == bytes,
            (
                SessionEvent::Chunk { stream: StreamKind::Stderr, bytes },
                ProcessOutputEvent::Chunk(ProcessOutputChunk::Stderr(seen)),
            ) => seen == bytes,
            (
                SessionEvent::StreamEof(StreamKind::Stdout),
                ProcessOutputEvent::Completion(ProcessOutputCompletion::StdoutEof),
            ) => true,
            (
                SessionEvent::StreamEof(StreamKind::Stderr),
                ProcessOutputEvent::Completion(ProcessOutputCompletion::StderrEof),
            ) => true,
            (
                SessionEvent::StreamAbandoned(StreamKind::Stdout),
                ProcessOutputEvent::Completion(ProcessOutputCompletion::StdoutAbandoned),
            ) => true,
            (
                SessionEvent::StreamAbandoned(StreamKind::Stderr),
                ProcessOutputEvent::Completion(ProcessOutputCompletion::StderrAbandoned),
            ) => true,
            (
                SessionEvent::StreamError { stream: StreamKind::Stdout, error },
                ProcessOutputEvent::Completion(ProcessOutputCompletion::StdoutError(fault)),
            ) => fault.spec_error() == error,
            (
                SessionEvent::StreamError { stream: StreamKind::Stderr, error },
                ProcessOutputEvent::Completion(ProcessOutputCompletion::StderrError(fault)),
            ) => fault.spec_error() == error,
            _ => false,
        },
{
    match event {
        SessionEvent::Chunk { stream, bytes } => ProcessOutputEvent::Chunk(
            match stream {
                StreamKind::Stdout => ProcessOutputChunk::Stdout(bytes),
                StreamKind::Stderr => ProcessOutputChunk::Stderr(bytes),
            },
        ),
        SessionEvent::StreamEof(stream) => ProcessOutputEvent::Completion(
            match stream {
                StreamKind::Stdout => ProcessOutputCompletion::StdoutEof,
                StreamKind::Stderr => ProcessOutputCompletion::StderrEof,
            },
        ),
        SessionEvent::StreamAbandoned(stream) => ProcessOutputEvent::Completion(
            match stream {
                StreamKind::Stdout => ProcessOutputCompletion::StdoutAbandoned,
                StreamKind::Stderr => ProcessOutputCompletion::StderrAbandoned,
            },
        ),
        SessionEvent::StreamError { stream, error } => {
            let fault = ProcessOutputFault::new(error);
            ProcessOutputEvent::Completion(
                match stream {
                    StreamKind::Stdout => ProcessOutputCompletion::StdoutError(fault),
                    StreamKind::Stderr => ProcessOutputCompletion::StderrError(fault),
                },
            )
        },
    }
}

/// How a session ended: the code or the signal, and the host's own number.
#[derive(Clone, Copy, Debug, PartialEq, Eq, Structural)]
pub struct ProcessSessionExit {
    pub code: Option<i32>,
    pub signal: Option<i32>,
    pub native: u32,
}

/// An exit where there are signals.
pub fn unix_exit(code: Option<i32>, signal: Option<i32>, raw: i32) -> (exit: ProcessSessionExit)
    ensures
        exit.code == code,
        exit.signal == signal,
        exit.native == if raw < 0 { raw + 0x1_0000_0000 } else { raw as int },
{
    ProcessSessionExit { code, signal, native: native_number(raw) }
}

/// An exit where there are none. One without a code counts as a failure.
pub fn windows_exit(code: Option<i32>) -> (exit: ProcessSessionExit)
    ensures
        exit.code == code,
        exit.signal is None,
        exit.native == match code {
            Some(code) => if code < 0 { code + 0x1_0000_0000 } else { code as int },
            None => 1,
        },
{
    let native: u32 = match code {
        Some(code) => native_number(code),
        None => 1,
    };
    ProcessSessionExit { code, signal: None, native }
}

fn native_number(value: i32) -> (native: u32)
    ensures
        native == if value < 0 { value + 0x1_0000_0000 } else { value as int },
{
    if value < 0 {
        u32::MAX - ((-(value + 1)) as u32)
    } else {
        value as u32
    }
}

// ---------------------------------------------------------------------------
// Failures
// ---------------------------------------------------------------------------

/// Why the substrate did not do what it was asked.
#[derive(Debug)]
pub enum ProcessFailure {
    AlreadyStarted,
    NotRunning,
    RuntimeContext,
    StdinUnavailable,
    Spawn(HostError),
    Io(HostError),
    Timeout,
    OutputLimitExceeded { limit: usize },
}

/// Why output could not be captured.
#[derive(Debug)]
pub enum ProcessCaptureError {
    OutputLimitExceeded { limit: usize },
    Io(HostError),
}

/// Why a bounded run did not succeed.
#[derive(Debug)]
pub enum BoundedProcessError {
    TimedOut,
    OutputLimitExceeded { limit: usize },
    Spawn(HostError),
    Io(HostError),
}

/// The kind of a failure that has no failure of the host behind it.
pub open spec fn failure_kind(failure: ProcessFailure) -> HostErrorKind {
    match failure {
        ProcessFailure::AlreadyStarted => HostErrorKind::AlreadyExists,
        ProcessFailure::NotRunning => HostErrorKind::BrokenPipe,
        ProcessFailure::RuntimeContext => HostErrorKind::Other,
        ProcessFailure::StdinUnavailable => HostErrorKind::BrokenPipe,
        ProcessFailure::Timeout => HostErrorKind::TimedOut,
        ProcessFailure::OutputLimitExceeded { limit } => HostErrorKind::FileTooLarge,
        ProcessFailure::Spawn(error) => error.kind,
        ProcessFailure::Io(error) => error.kind,
    }
}

/// A failure of the substrate as one of the host. `message` is what the
/// substrate says of it.
pub fn process_error_to_io(failure: ProcessFailure, message: &str) -> (error: HostError)
    ensures
        match failure {
            ProcessFailure::Spawn(source) => error == source,
            ProcessFailure::Io(source) => error == source,
            _ => error.says(failure_kind(failure), message@),
        },
{
    match failure {
        ProcessFailure::Spawn(source) => source,
        ProcessFailure::Io(source) => source,
        ProcessFailure::AlreadyStarted => HostError::new(HostErrorKind::AlreadyExists, message),
        ProcessFailure::NotRunning => HostError::new(HostErrorKind::BrokenPipe, message),
        ProcessFailure::RuntimeContext => HostError::new(HostErrorKind::Other, message),
        ProcessFailure::StdinUnavailable => HostError::new(HostErrorKind::BrokenPipe, message),
        ProcessFailure::Timeout => HostError::new(HostErrorKind::TimedOut, message),
        ProcessFailure::OutputLimitExceeded { limit: _ } => HostError::new(
            HostErrorKind::FileTooLarge,
            message,
        ),
    }
}

/// A failure of the substrate as one of capturing.
pub fn process_capture_error(failure: ProcessFailure, message: &str) -> (error: ProcessCaptureError)
    ensures
        match (failure, error) {
            (
                ProcessFailure::OutputLimitExceeded { limit },
                ProcessCaptureError::OutputLimitExceeded { limit: reported },
            ) => reported == limit,
            (ProcessFailure::Spawn(source), ProcessCaptureError::Io(error)) => error == source,
            (ProcessFailure::Io(source), ProcessCaptureError::Io(error)) => error == source,
            (failure, ProcessCaptureError::Io(error)) => !(failure is OutputLimitExceeded)
                && error.says(failure_kind(failure), message@),
            _ => false,
        },
{
    match failure {
        ProcessFailure::OutputLimitExceeded { limit } => ProcessCaptureError::OutputLimitExceeded {
            limit,
        },
        failure => ProcessCaptureError::Io(process_error_to_io(failure, message)),
    }
}

/// A failure of the substrate as one of a bounded run.
pub fn bounded_process_error(failure: ProcessFailure) -> (error: BoundedProcessError)
    ensures
        match (failure, error) {
            (ProcessFailure::Timeout, BoundedProcessError::TimedOut) => true,
            (
                ProcessFailure::OutputLimitExceeded { limit },
                BoundedProcessError::OutputLimitExceeded { limit: reported },
            ) => reported == limit,
            (ProcessFailure::Spawn(source), BoundedProcessError::Spawn(error)) => error == source,
            (ProcessFailure::Io(source), BoundedProcessError::Io(error)) => error == source,
            (ProcessFailure::AlreadyStarted, BoundedProcessError::Io(error)) => error.says(
                HostErrorKind::AlreadyExists,
                "bounded command was already started"@,
            ),
            (ProcessFailure::NotRunning, BoundedProcessError::Io(error)) => error.says(
                HostErrorKind::BrokenPipe,
                "bounded command is no longer running"@,
            ),
            (ProcessFailure::StdinUnavailable, BoundedProcessError::Io(error)) => error.says(
                HostErrorKind::BrokenPipe,
                "bounded command is no longer running"@,
            ),
            (ProcessFailure::RuntimeContext, BoundedProcessError::Io(error)) => error.says(
                HostErrorKind::Other,
                "bounded command requires an unavailable runtime context"@,
            ),
            _ => false,
        },
{
    match failure {
        ProcessFailure::Timeout => BoundedProcessError::TimedOut,
        ProcessFailure::OutputLimitExceeded { limit } => BoundedProcessError::OutputLimitExceeded {
            limit,
        },
        ProcessFailure::Spawn(source) => BoundedProcessError::Spawn(source),
        ProcessFailure::Io(source) => BoundedProcessError::Io(source),
        ProcessFailure::AlreadyStarted => BoundedProcessError::Io(
            HostError::new(HostErrorKind::AlreadyExists, "bounded command was already started"),
        ),
        ProcessFailure::NotRunning => BoundedProcessError::Io(
            HostError::new(HostErrorKind::BrokenPipe, "bounded command is no longer running"),
        ),
        ProcessFailure::StdinUnavailable => BoundedProcessError::Io(
            HostError::new(HostErrorKind::BrokenPipe, "bounded command is no longer running"),
        ),
        ProcessFailure::RuntimeContext => BoundedProcessError::Io(
            HostError::new(
                HostErrorKind::Other,
                "bounded command requires an unavailable runtime context",
            ),
        ),
    }
}

/// The number of a child, as long as it may still be used.
#[derive(Clone, Copy, Debug, PartialEq, Eq, Structural)]
pub struct ChildPid {
    pid: Option<u32>,
}

impl ChildPid {
    pub closed spec fn spec_pid(&self) -> Option<u32> {
        self.pid
    }

    pub fn started(pid: u32) -> (child: Self)
        ensures
            child.spec_pid() == Some(pid),
    {
        ChildPid { pid: Some(pid) }
    }

    pub fn pid(&self) -> (pid: Option<u32>)
        ensures
            pid == self.spec_pid(),
    {
        self.pid
    }

    /// Takes the outcome of waiting for the child or killing it. Once it is
    /// reaped its number may belong to another.
    pub fn after_wait(&mut self, succeeded: bool)
        ensures
            final(self).spec_pid() == if succeeded { None::<u32> } else { old(self).spec_pid() },
    {
        if succeeded {
            self.pid = None;
        }
    }

    /// Takes the outcome of capturing the child's output: a child that said too
    /// much has been ended, too.
    pub fn after_capture(&mut self, failure: Option<&ProcessCaptureError>)
        ensures
            final(self).spec_pid() == match failure {
                None => None,
                Some(ProcessCaptureError::OutputLimitExceeded { limit }) => None,
                Some(ProcessCaptureError::Io(_)) => old(self).spec_pid(),
            },
    {
        match failure {
            None => {
                self.pid = None;
            },
            Some(ProcessCaptureError::OutputLimitExceeded { limit: _ }) => {
                self.pid = None;
            },
            Some(ProcessCaptureError::Io(_)) => {},
        }
    }
}

/// A failure of the host keeps its kind, and each other failure has one of its own.
pub proof fn failures_have_their_kind(failure: ProcessFailure)
    ensures
        match failure {
            ProcessFailure::Spawn(error) => failure_kind(failure) == error.kind,
            ProcessFailure::Io(error) => failure_kind(failure) == error.kind,
            _ => {
                &&& failure_kind(failure) == HostErrorKind::TimedOut <==> failure
                    == ProcessFailure::Timeout
                &&& failure_kind(failure) == HostErrorKind::AlreadyExists <==> failure
                    == ProcessFailure::AlreadyStarted
                &&& failure_kind(failure) == HostErrorKind::BrokenPipe <==> failure
                    == ProcessFailure::NotRunning || failure == ProcessFailure::StdinUnavailable
                &&& failure_kind(failure) == HostErrorKind::FileTooLarge
                    <==> failure is OutputLimitExceeded
                &&& failure_kind(failure) == HostErrorKind::Other <==> failure
                    == ProcessFailure::RuntimeContext
            },
        },
{
}

/// An end keeps what the host told of it: its code, its signal, and all its bits.
pub proof fn ends_keep_their_bits(
    code: Option<i32>,
    signal: Option<i32>,
    raw: i32,
    other: i32,
    one: ProcessSessionExit,
    two: ProcessSessionExit,
)
    requires
        call_ensures(unix_exit, (code, signal, raw), one),
        call_ensures(unix_exit, (code, signal, other), two),
    ensures
        one.code == code && one.signal == signal,
        one.native == raw || one.native == raw + 0x1_0000_0000,
        one.native == two.native ==> raw == other,
{
}

/// On Windows there are no signals, and an end without a code counts as a failure.
pub proof fn ends_without_a_code_are_failures(code: i32, one: ProcessSessionExit, two: ProcessSessionExit)
    requires
        call_ensures(windows_exit, (Some(code),), one),
        call_ensures(windows_exit, (None,), two),
    ensures
        one.code == Some(code) && one.signal is None,
        one.native == code || one.native == code + 0x1_0000_0000,
        two.code is None && two.signal is None && two.native == 1,
{
}

/// What comes from one stream is told of that stream, byte for byte and end for end.
pub proof fn streams_are_told_apart(
    stream: StreamKind,
    bytes: Vec<u8>,
    chunk: ProcessOutputEvent,
    end: ProcessOutputEvent,
    given_up: ProcessOutputEvent,
)
    requires
        call_ensures(output_event, (SessionEvent::Chunk { stream, bytes },), chunk),
        call_ensures(output_event, (SessionEvent::StreamEof(stream),), end),
        call_ensures(output_event, (SessionEvent::StreamAbandoned(stream),), given_up),
    ensures
        stream == StreamKind::Stdout ==> {
            &&& chunk == ProcessOutputEvent::Chunk(ProcessOutputChunk::Stdout(bytes))
            &&& end == ProcessOutputEvent::Completion(ProcessOutputCompletion::StdoutEof)
            &&& given_up == ProcessOutputEvent::Completion(ProcessOutputCompletion::StdoutAbandoned)
        },
        stream == StreamKind::Stderr ==> {
            &&& chunk == ProcessOutputEvent::Chunk(ProcessOutputChunk::Stderr(bytes))
            &&& end == ProcessOutputEvent::Completion(ProcessOutputCompletion::StderrEof)
            &&& given_up == ProcessOutputEvent::Completion(ProcessOutputCompletion::StderrAbandoned)
        },
{
}

/// Only another process is watched as an owner, and it is never the owner of a bounded run.
pub proof fn watched_owners_do_not_bind_bounded_runs(
    owner: Option<LifetimeOwner>,
    pid: Option<u32>,
    checked: Result<(), BoundedProcessError>,
)
    requires
        call_ensures(owner_to_watch, (owner,), pid),
        call_ensures(check_bounded_owner, (owner,), checked),
    ensures
        checked is Ok <==> pid is None,
        pid is Some ==> owner == Some(LifetimeOwner::Process(pid->Some_0)),
{
}

} // verus!
