//! Looking at processes and acting on them.
use vstd::prelude::*;

use crate::host::{HostError, HostErrorKind};
use crate::strings::{
    chars_of, lower, lower_text, lowered, only_capital_letters_are_lowered, push_char, same_text, starts_with,
    strip_front,
};
use crate::windows::spawn::{exit_code_of, signed_code, STILL_ACTIVE, WAIT_OBJECT_0};

verus! {

pub const ERROR_INVALID_PARAMETER: i32 = 87;

pub const ERROR_ACCESS_DENIED: i32 = 5;

pub const WAIT_FAILED: u32 = 0xffff_ffff;

// ---------------------------------------------------------------------------
// Inspection
// ---------------------------------------------------------------------------

/// Why a process could not be inspected.
#[derive(Clone, Copy, Debug, PartialEq, Eq, Structural)]
pub enum ProcessInspectErrorKind {
    InvalidPid,
    NotFound,
    Unsupported,
    Host,
}

#[derive(Debug)]
pub struct ProcessInspectError {
    pub kind: ProcessInspectErrorKind,
    pub source: HostError,
}

impl ProcessInspectError {
    /// Whether this is a failure that the library states by itself.
    pub open spec fn states(&self, kind: ProcessInspectErrorKind, message: Seq<char>) -> bool {
        self.kind == kind && self.source.code is None && self.source.message@ == message
    }

    pub fn stated(kind: ProcessInspectErrorKind, message: &str) -> (error: Self)
        ensures
            error.states(kind, message@),
    {
        ProcessInspectError { kind, source: HostError::new(HostErrorKind::Other, message) }
    }
}

/// The largest process number that every host can hold: some of them give it a sign.
pub const MAX_PROCESS_ID: u32 = 0x7fff_ffff;

/// A process number; zero is none, and neither is one that some host could not hold.
pub fn process_id(pid: u32) -> (valid: Result<u32, ProcessInspectError>)
    ensures
        match valid {
            Ok(valid) => 0 < pid <= MAX_PROCESS_ID && valid == pid,
            Err(error) => if pid == 0 {
                error.states(
                    ProcessInspectErrorKind::InvalidPid,
                    "process id zero is never valid"@,
                )
            } else {
                pid > MAX_PROCESS_ID && error.states(
                    ProcessInspectErrorKind::InvalidPid,
                    "process id is out of range"@,
                )
            },
        },
{
    if pid == 0 {
        return Err(
            ProcessInspectError::stated(
                ProcessInspectErrorKind::InvalidPid,
                "process id zero is never valid",
            ),
        );
    }
    if pid > MAX_PROCESS_ID {
        return Err(
            ProcessInspectError::stated(
                ProcessInspectErrorKind::InvalidPid,
                "process id is out of range",
            ),
        );
    }
    Ok(pid)
}

/// Why a process could not be opened: an invalid number means that it is gone.
pub fn open_failure(source: HostError) -> (error: ProcessInspectError)
    ensures
        if source.code == Some(ERROR_INVALID_PARAMETER) {
            error.states(ProcessInspectErrorKind::NotFound, "no such process"@)
        } else {
            error.kind == ProcessInspectErrorKind::Host && error.source == source
        },
{
    let gone = match source.code {
        Some(code) => code == ERROR_INVALID_PARAMETER,
        None => false,
    };
    if gone {
        ProcessInspectError::stated(ProcessInspectErrorKind::NotFound, "no such process")
    } else {
        ProcessInspectError { kind: ProcessInspectErrorKind::Host, source }
    }
}

/// Why a process cannot be watched, where opening it failed. The host's own
/// failure is kept.
pub fn watch_open_failure(source: HostError) -> (error: ProcessInspectError)
    ensures
        error.source == source,
        error.kind == if source.code == Some(ERROR_INVALID_PARAMETER) {
            ProcessInspectErrorKind::NotFound
        } else {
            ProcessInspectErrorKind::Host
        },
{
    let gone = match source.code {
        Some(code) => code == ERROR_INVALID_PARAMETER,
        None => false,
    };
    let kind = if gone { ProcessInspectErrorKind::NotFound } else { ProcessInspectErrorKind::Host };
    ProcessInspectError { kind, source }
}

/// Whether a process that was opened can still be watched: one that has exited
/// has no exit left to see.
pub fn watchable(already_exited: bool) -> (watchable: Result<(), ProcessInspectError>)
    ensures
        match watchable {
            Ok(()) => !already_exited,
            Err(error) => already_exited && error.states(
                ProcessInspectErrorKind::NotFound,
                "no such process"@,
            ),
        },
{
    if already_exited {
        Err(ProcessInspectError::stated(ProcessInspectErrorKind::NotFound, "no such process"))
    } else {
        Ok(())
    }
}

/// Whether a process lives. A handle that can be waited on knows; without one
/// only the exit code is left, and a process that exited with the code of a
/// running one cannot be told from it.
pub fn is_alive(waitable: bool, already_exited: bool, exit_code: Option<u32>) -> (alive: bool)
    ensures
        alive == if waitable { !already_exited } else { exit_code == Some(STILL_ACTIVE) },
{
    if waitable {
        return !already_exited;
    }
    match exit_code {
        Some(code) => code == STILL_ACTIVE,
        None => false,
    }
}

/// What waiting for an exit came to.
#[derive(Debug)]
pub enum ExitWait {
    /// The process exited.
    Exited,
    /// Waiting failed.
    Failed,
    /// Nobody wants to know any more.
    Cancelled(ProcessInspectError),
}

pub fn exit_wait(waited: u32) -> (outcome: ExitWait)
    ensures
        match outcome {
            ExitWait::Exited => waited == WAIT_OBJECT_0,
            ExitWait::Failed => waited == WAIT_FAILED,
            ExitWait::Cancelled(error) => waited != WAIT_OBJECT_0 && waited != WAIT_FAILED
                && error.states(ProcessInspectErrorKind::Host, "the exit wait was cancelled"@),
        },
{
    if waited == WAIT_OBJECT_0 {
        ExitWait::Exited
    } else if waited == WAIT_FAILED {
        ExitWait::Failed
    } else {
        ExitWait::Cancelled(
            ProcessInspectError::stated(
                ProcessInspectErrorKind::Host,
                "the exit wait was cancelled",
            ),
        )
    }
}

/// How a process ended, as far as the host says.
#[derive(Clone, Copy, Debug, PartialEq, Eq, Structural)]
pub enum ProcessExitObservation {
    Unreported,
    Reported { code: i32, native: u32 },
}

pub fn exit_status(native: Option<u32>) -> (observation: ProcessExitObservation)
    ensures
        match (native, observation) {
            (None, ProcessExitObservation::Unreported) => true,
            (Some(expected), ProcessExitObservation::Reported { code, native }) => native
                == expected && code == signed_code(expected),
            _ => false,
        },
{
    match native {
        None => ProcessExitObservation::Unreported,
        Some(native) => ProcessExitObservation::Reported { code: exit_code_of(native), native },
    }
}

/// Asking a process to end is not something that this host can do.
pub fn process_signal_terminate(pid: u32) -> (sent: Result<(), ProcessInspectError>)
    ensures
        sent is Err,
        sent->Err_0.states(
            ProcessInspectErrorKind::Unsupported,
            "this host has no graceful terminate signal"@,
        ),
{
    Err(
        ProcessInspectError::stated(
            ProcessInspectErrorKind::Unsupported,
            "this host has no graceful terminate signal",
        ),
    )
}

/// What forcing a process to end came to.
pub fn force_kill_result(opened: bool, terminated: Result<(), HostError>) -> (killed: Result<
    (),
    ProcessInspectError,
>)
    ensures
        match killed {
            Ok(()) => opened && terminated is Ok,
            Err(error) => if !opened {
                error.states(ProcessInspectErrorKind::NotFound, "no such process"@)
            } else {
                terminated is Err && error.kind == ProcessInspectErrorKind::Host && error.source
                    == terminated->Err_0
            },
        },
{
    if !opened {
        return Err(
            ProcessInspectError::stated(ProcessInspectErrorKind::NotFound, "no such process"),
        );
    }
    match terminated {
        Ok(()) => Ok(()),
        Err(source) => Err(ProcessInspectError { kind: ProcessInspectErrorKind::Host, source }),
    }
}

// ---------------------------------------------------------------------------
// Images
// ---------------------------------------------------------------------------

/// A path with forward slashes.
pub open spec fn forward(path: Seq<char>) -> Seq<char> {
    path.map_values(|c: char| if c == '\\' { '/' } else { c })
}

/// A path in the one spelling that is compared: forward slashes, no mark of an
/// extended path, lower case.
pub open spec fn comparable_text(path: Seq<char>) -> Seq<char> {
    let path = forward(path);
    lowered(if starts_with(path, "//?/"@) { path.skip(4) } else { path })
}

fn comparable(path: &str) -> (text: String)
    ensures
        text@ == comparable_text(path@),
{
    let chars = chars_of(path);
    let mut slashed = String::new();
    assert(slashed@ =~= forward(path@).take(0));
    for at in 0..chars.len()
        invariant
            chars@ == path@,
            slashed@ == forward(path@).take(at as int),
    {
        push_char(
            &mut slashed,
            if chars[at] == '\\' {
                '/'
            } else {
                chars[at]
            },
        );
        assert(slashed@ =~= forward(path@).take(at + 1));
    }
    assert(slashed@ =~= forward(path@));
    proof {
        reveal_strlit("//?/");
    }
    match strip_front(slashed.as_str(), "//?/") {
        Some(rest) => lower_text(rest.as_str()),
        None => lower_text(slashed.as_str()),
    }
}

/// Whether two paths, resolved as far as they can be, spell one image.
pub fn process_same_executable_path(actual: &str, expected: &str) -> (same: bool)
    ensures
        same == (comparable_text(actual@) == comparable_text(expected@)),
{
    same_text(comparable(actual).as_str(), comparable(expected).as_str())
}

// ---------------------------------------------------------------------------
// Priority
// ---------------------------------------------------------------------------

#[derive(Clone, Copy, Debug, PartialEq, Eq, Structural)]
pub enum ProcessPriority {
    Idle,
    Low,
    Normal,
    High,
}

/// The host's class for a priority; an ordinary one is left as it is.
pub fn priority_class(priority: ProcessPriority) -> (class: Option<u32>)
    ensures
        class == match priority {
            ProcessPriority::Normal => None,
            ProcessPriority::Low => Some(0x4000u32),
            ProcessPriority::Idle => Some(0x40u32),
            ProcessPriority::High => Some(0x80u32),
        },
{
    match priority {
        ProcessPriority::Normal => None,
        ProcessPriority::Low => Some(0x4000),
        ProcessPriority::Idle => Some(0x40),
        ProcessPriority::High => Some(0x80),
    }
}

/// A time of the host in one number.
pub open spec fn filetime_of(high: u32, low: u32) -> int {
    high * 0x1_0000_0000 + low
}

pub fn filetime(high: u32, low: u32) -> (time: u64)
    ensures
        time == filetime_of(high, low),
{
    high as u64 * 0x1_0000_0000 + low as u64
}

/// What an action on a process came to.
#[derive(Clone, Copy, Debug, PartialEq, Eq, Structural)]
pub enum ProcessIdentityAction {
    Performed,
    AlreadyExited,
}

/// Why an action on a process was not taken.
#[derive(Debug)]
pub enum ProcessIdentityActionError {
    /// The number belongs to another process by now.
    StaleIdentity,
    PermissionDenied,
    Host(HostError),
}

/// What failing to open a process means for an action on it.
pub fn action_open_failure(source: HostError) -> (outcome: Result<
    ProcessIdentityAction,
    ProcessIdentityActionError,
>)
    ensures
        match outcome {
            Ok(action) => source.code == Some(ERROR_INVALID_PARAMETER) && action
                == ProcessIdentityAction::AlreadyExited,
            Err(ProcessIdentityActionError::PermissionDenied) => source.code == Some(
                ERROR_ACCESS_DENIED,
            ),
            Err(ProcessIdentityActionError::Host(error)) => error == source && source.code != Some(
                ERROR_INVALID_PARAMETER,
            ) && source.code != Some(ERROR_ACCESS_DENIED),
            Err(ProcessIdentityActionError::StaleIdentity) => false,
        },
{
    match source.code {
        Some(code) => if code == ERROR_INVALID_PARAMETER {
            Ok(ProcessIdentityAction::AlreadyExited)
        } else if code == ERROR_ACCESS_DENIED {
            Err(ProcessIdentityActionError::PermissionDenied)
        } else {
            Err(ProcessIdentityActionError::Host(source))
        },
        None => Err(ProcessIdentityActionError::Host(source)),
    }
}

/// What to do about a priority once the process is open.
#[derive(Clone, Copy, Debug, PartialEq, Eq, Structural)]
pub enum PriorityStep {
    /// It is another process: leave it alone.
    Stale,
    AlreadyExited,
    /// There is nothing to change.
    Performed,
    SetClass { class: u32 },
}

/// What to do by what was known of the process and what is seen of it now. The
/// time of creation tells a process from a later one of the same number.
pub open spec fn priority_step(
    known_created: u64,
    seen_created: u64,
    exit_code: Option<u32>,
    priority: ProcessPriority,
) -> PriorityStep {
    if known_created != seen_created {
        PriorityStep::Stale
    } else if exit_code is Some && exit_code != Some(STILL_ACTIVE) {
        PriorityStep::AlreadyExited
    } else {
        match priority {
            ProcessPriority::Normal => PriorityStep::Performed,
            ProcessPriority::Low => PriorityStep::SetClass { class: 0x4000 },
            ProcessPriority::Idle => PriorityStep::SetClass { class: 0x40 },
            ProcessPriority::High => PriorityStep::SetClass { class: 0x80 },
        }
    }
}

pub fn set_priority_identity(
    known_created: u64,
    seen_created: u64,
    exit_code: Option<u32>,
    priority: ProcessPriority,
) -> (step: PriorityStep)
    ensures
        step == priority_step(known_created, seen_created, exit_code, priority),
{
    if known_created != seen_created {
        return PriorityStep::Stale;
    }
    if let Some(code) = exit_code {
        if code != STILL_ACTIVE {
            return PriorityStep::AlreadyExited;
        }
    }
    match priority_class(priority) {
        Some(class) => PriorityStep::SetClass { class },
        None => PriorityStep::Performed,
    }
}

/// What changing a priority came to, by the step and by what the host made of it.
pub fn priority_outcome(step: PriorityStep, set: Result<(), HostError>) -> (outcome: Result<
    ProcessIdentityAction,
    ProcessIdentityActionError,
>)
    ensures
        match outcome {
            Ok(action) => match step {
                PriorityStep::Stale => false,
                PriorityStep::AlreadyExited => action == ProcessIdentityAction::AlreadyExited,
                PriorityStep::Performed => action == ProcessIdentityAction::Performed,
                PriorityStep::SetClass { class } => set is Ok && action
                    == ProcessIdentityAction::Performed,
            },
            Err(ProcessIdentityActionError::StaleIdentity) => step == PriorityStep::Stale,
            Err(ProcessIdentityActionError::Host(error)) => step is SetClass && set is Err && error
                == set->Err_0,
            Err(ProcessIdentityActionError::PermissionDenied) => false,
        },
{
    match step {
        PriorityStep::Stale => Err(ProcessIdentityActionError::StaleIdentity),
        PriorityStep::AlreadyExited => Ok(ProcessIdentityAction::AlreadyExited),
        PriorityStep::Performed => Ok(ProcessIdentityAction::Performed),
        PriorityStep::SetClass { class: _ } => match set {
            Ok(()) => Ok(ProcessIdentityAction::Performed),
            Err(error) => Err(ProcessIdentityActionError::Host(error)),
        },
    }
}

/// Only a process that is the one that was meant, and that runs as far as can be
/// seen, is ever changed.
pub proof fn only_the_meant_process_is_changed(
    known_created: u64,
    seen_created: u64,
    exit_code: Option<u32>,
    priority: ProcessPriority,
)
    requires
        priority_step(known_created, seen_created, exit_code, priority) is SetClass,
    ensures
        known_created == seen_created,
        exit_code is None || exit_code == Some(STILL_ACTIVE),
        priority != ProcessPriority::Normal,
{
}

/// Groups of processes cannot be ended here.
pub fn force_terminate_child_process_group() -> (ended: Result<(), HostError>)
    ensures
        ended is Err,
        ended->Err_0.says(
            HostErrorKind::Unsupported,
            "process-group termination is unavailable on Windows; use kill_tree"@,
        ),
{
    Err(
        HostError::new(
            HostErrorKind::Unsupported,
            "process-group termination is unavailable on Windows; use kill_tree",
        ),
    )
}

/// Whether the old handle of a standard stream is to be closed after a new one
/// took its place: not if it is none, the new one, or still in use as another
/// stream.
pub fn closes_old_stream(
    old_is_usable: bool,
    old_is_new: bool,
    old_is_standard: bool,
) -> (closes: bool)
    ensures
        closes == (old_is_usable && !old_is_new && !old_is_standard),
{
    old_is_usable && !old_is_new && !old_is_standard
}

// ---------------------------------------------------------------------------
// Jobserver
// ---------------------------------------------------------------------------

/// There is no jobserver on this host.
pub fn native_jobserver_supported() -> (supported: bool)
    ensures
        !supported,
{
    false
}

/// A jobserver. This host has none, and there is no value of this type.
#[derive(Debug)]
pub struct NativeJobserver {
    never: std::convert::Infallible,
}

impl NativeJobserver {
    /// Fails: first on a senseless capacity, then for lack of support.
    pub fn create(capacity: usize) -> (server: Result<Self, HostError>)
        ensures
            server is Err,
            if capacity == 0 {
                server->Err_0.says(
                    HostErrorKind::InvalidInput,
                    "jobserver capacity must be greater than zero"@,
                )
            } else {
                server->Err_0.says(
                    HostErrorKind::Unsupported,
                    "GNU make jobserver pipes are unavailable on Windows"@,
                )
            },
    {
        if capacity == 0 {
            return Err(
                HostError::new(
                    HostErrorKind::InvalidInput,
                    "jobserver capacity must be greater than zero",
                ),
            );
        }
        Err(
            HostError::new(
                HostErrorKind::Unsupported,
                "GNU make jobserver pipes are unavailable on Windows",
            ),
        )
    }
}

// ---------------------------------------------------------------------------
// Usage
// ---------------------------------------------------------------------------

/// How many processes of a tree are looked at.
pub const MAX_TREE_RSS_PROCESSES: usize = 4096;

/// Whether the peak can be read after the process has exited.
pub const PEAK_RSS_READABLE_AFTER_EXIT: bool = true;

/// The time that a process has had, in the host's ticks: in the kernel and
/// outside. It wraps as the host's counters do.
pub fn cpu_ticks_for_pid(kernel: u64, user: u64) -> (ticks: u64)
    ensures
        ticks == (kernel + user) % 0x1_0000_0000_0000_0000,
{
    kernel.wrapping_add(user)
}

/// The most memory that a process has had, where the host could say.
pub fn peak_rss_bytes_for_pid(peak: Option<usize>) -> (bytes: Option<u64>)
    ensures
        match (peak, bytes) {
            (Some(peak), Some(bytes)) => bytes == peak,
            (None, None) => true,
            _ => false,
        },
{
    match peak {
        Some(peak) => Some(peak as u64),
        None => None,
    }
}

/// A process in a snapshot: its number, its parent's, and the memory that it has,
/// where the host could say.
#[derive(Clone, Copy, Debug, PartialEq, Eq, Structural)]
pub struct ProcessEntry {
    pub pid: u32,
    pub parent: u32,
    pub rss: Option<u64>,
}

/// Whether one process is the parent of another. One that is its own parent is
/// not.
pub open spec fn is_child(processes: Seq<ProcessEntry>, child: u32, parent: u32) -> bool {
    exists|i: int|
        0 <= i < processes.len() && (#[trigger] processes[i]).pid == child && processes[i].parent
            == parent && child != parent
}

/// The memory of a process by the first entry that bears its number.
pub open spec fn rss_of(processes: Seq<ProcessEntry>, pid: u32) -> nat
    decreases processes.len(),
{
    if processes.len() == 0 {
        0
    } else if processes[0].pid == pid {
        match processes[0].rss {
            Some(rss) => rss as nat,
            None => 0,
        }
    } else {
        rss_of(processes.drop_first(), pid)
    }
}

/// The memory of the processes after the first.
pub open spec fn rss_below(processes: Seq<ProcessEntry>, visited: Seq<u32>) -> nat
    decreases visited.len(),
{
    if visited.len() <= 1 {
        0
    } else {
        rss_below(processes, visited.drop_last()) + rss_of(processes, visited.last())
    }
}

/// Whether a list of processes is a tree from `root`: it starts there, holds
/// nothing twice, and every other process in it is the child of one before.
pub open spec fn is_tree(processes: Seq<ProcessEntry>, root: u32, visited: Seq<u32>) -> bool {
    &&& visited.len() >= 1
    &&& visited[0] == root
    &&& visited.no_duplicates()
    &&& forall|i: int|
        0 < i < visited.len() ==> exists|j: int|
            0 <= j < i && is_child(processes, #[trigger] visited[i], #[trigger] visited[j])
}

/// Whether a list of processes holds all the children of its members.
pub open spec fn is_closed(processes: Seq<ProcessEntry>, visited: Seq<u32>) -> bool {
    forall|child: u32, parent: u32|
        visited.contains(parent) && #[trigger] is_child(processes, child, parent)
            ==> visited.contains(child)
}

pub open spec fn clamped(value: nat) -> nat {
    if value > u64::MAX { u64::MAX as nat } else { value }
}

fn find_rss(processes: &Vec<ProcessEntry>, pid: u32) -> (rss: u64)
    ensures
        rss == rss_of(processes@, pid),
{
    assert(processes@.skip(0) =~= processes@);
    for at in 0..processes.len()
        invariant
            rss_of(processes@, pid) == rss_of(processes@.skip(at as int), pid),
    {
        if processes[at].pid == pid {
            return match processes[at].rss {
                Some(rss) => rss,
                None => 0,
            };
        }
        assert(processes@.skip(at as int).drop_first() =~= processes@.skip(at + 1));
    }
    0
}

fn is_visited(visited: &Vec<u32>, pid: u32) -> (is: bool)
    ensures
        is == visited@.contains(pid),
{
    for at in 0..visited.len()
        invariant
            forall|i: int| 0 <= i < at ==> visited@[i] != pid,
    {
        if visited[at] == pid {
            assert(visited@[at as int] == pid);
            return true;
        }
    }
    false
}

/// The memory of a process and everything below it. Every process counts once,
/// however the snapshot may loop; at most so many are looked at; and the sum
/// stays at the largest number rather than wrapping. Nothing is known where the
/// memory of the process itself is not.
pub fn tree_rss_bytes_for_pid(pid: u32, root_rss: Option<u64>, processes: &Vec<ProcessEntry>) -> (
    bytes: Option<u64>)
    ensures
        match (root_rss, bytes) {
            (None, None) => true,
            (Some(root), Some(bytes)) => exists|visited: Seq<u32>| #[trigger]
                is_tree(processes@, pid, visited) && visited.len() <= MAX_TREE_RSS_PROCESSES && (
                visited.len() < MAX_TREE_RSS_PROCESSES ==> is_closed(processes@, visited)) && bytes
                    == clamped(root as nat + rss_below(processes@, visited)),
            _ => false,
        },
{
    let root = match root_rss {
        Some(root) => root,
        None => {
            return None;
        },
    };
    let mut total: u64 = root;
    let mut visited: Vec<u32> = Vec::new();
    visited.push(pid);
    let mut stack: Vec<usize> = Vec::new();
    stack.push(0);
    assert(stack@[0] == 0);
    while stack.len() > 0
        invariant
            is_tree(processes@, pid, visited@),
            visited@.len() <= MAX_TREE_RSS_PROCESSES,
            forall|i: int| 0 <= i < stack@.len() ==> stack@[i] < visited@.len(),
            total == clamped(root as nat + rss_below(processes@, visited@)),
            visited@.len() < MAX_TREE_RSS_PROCESSES ==> forall|p: usize|
                p < visited@.len() ==> stack@.contains(p) || #[trigger] is_expanded(
                    processes@,
                    visited@,
                    p as int,
                ),
        decreases MAX_TREE_RSS_PROCESSES - visited@.len(), stack@.len(),
    {
        let ghost stacked = stack@;
        let ghost visited_before = visited@.len();
        let place = stack[stack.len() - 1];
        stack.pop();
        let parent = visited[place];
        proof {
            assert forall|p: usize| stacked.contains(p) && p != place implies stack@.contains(p) by {
                let i = choose|i: int| 0 <= i < stacked.len() && stacked[i] == p;
                assert(stack@[i] == p);
            }
        }
        for at in 0..processes.len()
            invariant
                place < visited@.len(),
                parent == visited@[place as int],
                is_tree(processes@, pid, visited@),
                visited@.len() <= MAX_TREE_RSS_PROCESSES,
                forall|i: int| 0 <= i < stack@.len() ==> stack@[i] < visited@.len(),
                total == clamped(root as nat + rss_below(processes@, visited@)),
                visited@.len() < MAX_TREE_RSS_PROCESSES ==> forall|p: usize|
                    p < visited@.len() && p != place ==> stack@.contains(p)
                        || #[trigger] is_expanded(processes@, visited@, p as int),
                visited@.len() < MAX_TREE_RSS_PROCESSES ==> forall|i: int|
                    0 <= i < at && (#[trigger] processes@[i]).parent == parent && processes@[i].pid
                        != parent ==> visited@.contains(processes@[i].pid),
                visited@.len() > visited_before || (visited@.len() == visited_before && stack@.len()
                    == stacked.len() - 1),
                visited_before <= visited@.len(),
        {
            let entry = processes[at];
            if entry.parent == parent && entry.pid != parent && visited.len()
                < MAX_TREE_RSS_PROCESSES && !is_visited(&visited, entry.pid) {
                let ghost before = visited@;
                let ghost waiting = stack@;
                let rss = find_rss(processes, entry.pid);
                let index = visited.len();
                visited.push(entry.pid);
                stack.push(index);
                total = if total > u64::MAX - rss { u64::MAX } else { total + rss };
                proof {
                    assert(visited@.drop_last() =~= before);
                    assert(is_child(processes@, entry.pid, parent)) by {
                        assert(processes@[at as int].pid == entry.pid);
                    }
                    assert forall|i: int| 0 < i < visited@.len() implies exists|j: int|
                        0 <= j < i && is_child(
                            processes@,
                            #[trigger] visited@[i],
                            #[trigger] visited@[j],
                        ) by {
                        if i < before.len() {
                            let j = choose|j: int|
                                0 <= j < i && is_child(
                                    processes@,
                                    #[trigger] before[i],
                                    #[trigger] before[j],
                                );
                            assert(visited@[i] == before[i] && visited@[j] == before[j]);
                            assert(is_child(processes@, visited@[i], visited@[j]));
                        } else {
                            assert(visited@[place as int] == parent);
                            assert(is_child(processes@, visited@[i], visited@[place as int]));
                        }
                    }
                    assert(visited@.no_duplicates()) by {
                        assert forall|a: int, b: int|
                            0 <= a < visited@.len() && 0 <= b < visited@.len() && a
                                != b implies visited@[a] != visited@[b] by {
                            if a < before.len() && b < before.len() {
                                assert(before[a] != before[b]);
                            } else if a < before.len() {
                                assert(before.contains(before[a]));
                            } else {
                                assert(before.contains(before[b]));
                            }
                        }
                    }
                    lemma_contains_more(before, entry.pid);
                    assert forall|p: usize|
                        p < visited@.len() && p != place implies stack@.contains(p)
                        || #[trigger] is_expanded(processes@, visited@, p as int) by {
                        if p == index {
                            assert(stack@[stack@.len() - 1] == p);
                        } else if waiting.contains(p) {
                            let i = choose|i: int| 0 <= i < waiting.len() && waiting[i] == p;
                            assert(stack@[i] == p);
                        } else {
                            assert(is_expanded(processes@, before, p as int));
                            assert(visited@[p as int] == before[p as int]);
                        }
                    }
                }
            }
        }
        proof {
            if visited@.len() < MAX_TREE_RSS_PROCESSES {
                assert(is_expanded(processes@, visited@, place as int)) by {
                    assert forall|child: u32| #[trigger]
                        is_child(processes@, child, visited@[place as int]) implies visited@.contains(
                        child,
                    ) by {
                        let i = choose|i: int|
                            0 <= i < processes@.len() && (#[trigger] processes@[i]).pid == child
                                && processes@[i].parent == parent && child != parent;
                        assert(visited@.contains(processes@[i].pid));
                    }
                }
            }
        }
    }
    proof {
        if visited@.len() < MAX_TREE_RSS_PROCESSES {
            assert forall|child: u32, parent: u32|
                visited@.contains(parent) && #[trigger] is_child(
                    processes@,
                    child,
                    parent,
                ) implies visited@.contains(child) by {
                let p = choose|p: int| 0 <= p < visited@.len() && visited@[p] == parent;
                let index = p as usize;
                assert(!stack@.contains(index));
                assert(is_expanded(processes@, visited@, index as int));
                assert(is_child(processes@, child, visited@[p]));
            }
        }
    }
    Some(total)
}

/// Whether all the children of a member of a list are in the list.
spec fn is_expanded(processes: Seq<ProcessEntry>, visited: Seq<u32>, place: int) -> bool {
    forall|child: u32| #[trigger]
        is_child(processes, child, visited[place]) ==> visited.contains(child)
}

proof fn lemma_contains_more(list: Seq<u32>, next: u32)
    ensures
        forall|pid: u32| list.contains(pid) ==> #[trigger] list.push(next).contains(pid),
        list.push(next).contains(next),
{
    assert forall|pid: u32| list.contains(pid) implies #[trigger] list.push(next).contains(pid) by {
        let i = choose|i: int| 0 <= i < list.len() && list[i] == pid;
        assert(list.push(next)[i] == pid);
    }
    assert(list.push(next)[list.len() as int] == next);
}

// ---------------------------------------------------------------------------
// Termination requests
// ---------------------------------------------------------------------------

/// What one source of requests has to say.
#[derive(Clone, Copy, Debug, PartialEq, Eq, Structural)]
pub enum SignalPoll {
    /// A request arrived.
    Arrived,
    /// No request will ever arrive.
    Closed,
    Pending,
}

/// What three sources have to say together: a request of any is one, and only
/// all of them can be closed.
pub open spec fn polled_together(
    first: SignalPoll,
    second: SignalPoll,
    third: SignalPoll,
) -> SignalPoll {
    if first == SignalPoll::Arrived || second == SignalPoll::Arrived || third
        == SignalPoll::Arrived {
        SignalPoll::Arrived
    } else if first == SignalPoll::Closed && second == SignalPoll::Closed && third
        == SignalPoll::Closed {
        SignalPoll::Closed
    } else {
        SignalPoll::Pending
    }
}

pub fn combine_polls(first: SignalPoll, second: SignalPoll, third: SignalPoll) -> (poll: SignalPoll)
    ensures
        poll == polled_together(first, second, third),
{
    if first == SignalPoll::Arrived || second == SignalPoll::Arrived || third
        == SignalPoll::Arrived {
        SignalPoll::Arrived
    } else if first == SignalPoll::Closed && second == SignalPoll::Closed && third
        == SignalPoll::Closed {
        SignalPoll::Closed
    } else {
        SignalPoll::Pending
    }
}

/// Paths compare alike whatever the case of their letters and whichever separator is written,
/// and with or without the mark of a verbatim path.
pub proof fn paths_compare_in_any_spelling(path: Seq<char>)
    ensures
        comparable_text(forward(path)) == comparable_text(path),
        comparable_text(lowered(path)) == comparable_text(path),
        comparable_text("\\\\?\\"@ + path) == lowered(forward(path)),
        !(path.len() >= 1 && (path[0] == '\\' || path[0] == '/')) ==> comparable_text(path)
            == lowered(forward(path)),
{
    reveal_strlit("\\\\?\\");
    reveal_strlit("//?/");
    let there = forward(path);
    assert(forward(there) =~= there);
    only_capital_letters_are_lowered(path);
    only_capital_letters_are_lowered(there);
    let low = lowered(path);
    assert forall|i: int| 0 <= i < path.len() implies forward(low)[i] == lower(there[i]) by {
        assert(low[i] == lower(path[i]));
    }
    assert(forward(low) =~= lowered(there));
    let mark = "//?/"@;
    assert(mark =~= seq!['/', '/', '?', '/']);
    assert(starts_with(lowered(there), mark) == starts_with(there, mark)) by {
        if there.len() >= 4 {
            lemma_marks_have_no_case(there[0]);
            lemma_marks_have_no_case(there[1]);
            lemma_marks_have_no_case(there[2]);
            lemma_marks_have_no_case(there[3]);
            let a = there.subrange(0, 4);
            let b = lowered(there).subrange(0, 4);
            assert(a =~= seq![there[0], there[1], there[2], there[3]]);
            assert(b =~= seq![lower(there[0]), lower(there[1]), lower(there[2]), lower(there[3])]);
            if a == mark {
                assert(a[0] == '/' && a[1] == '/' && a[2] == '?' && a[3] == '/');
                assert(b =~= mark);
            }
            if b == mark {
                assert(b[0] == '/' && b[1] == '/' && b[2] == '?' && b[3] == '/');
                assert(a =~= mark);
            }
        }
    }
    assert(lowered(lowered(there)) =~= lowered(there));
    if there.len() >= 4 {
        only_capital_letters_are_lowered(there.skip(4));
        assert(lowered(there).skip(4) =~= lowered(there.skip(4)));
    }
    let marked = "\\\\?\\"@ + path;
    assert(forward(marked).subrange(0, 4) =~= mark);
    assert(forward(marked).skip(4) =~= there);
    if !(path.len() >= 1 && (path[0] == '\\' || path[0] == '/')) {
        if starts_with(there, mark) {
            assert(there.subrange(0, 4)[0] == '/');
            assert(there[0] == '/');
        }
    }
}

proof fn lemma_marks_have_no_case(c: char)
    ensures
        lower(c) == '/' <==> c == '/',
        lower(c) == '?' <==> c == '?',
{
}

/// Times count on from their low word to their high one.
pub proof fn file_times_count_on(high: u32, low: u32)
    ensures
        filetime_of(0, low) == low,
        high < u32::MAX ==> filetime_of((high + 1) as u32, 0) == filetime_of(high, u32::MAX) + 1,
        low < u32::MAX ==> filetime_of(high, (low + 1) as u32) == filetime_of(high, low) + 1,
        filetime_of(high, low) % 0x1_0000_0000 == low,
{
}

/// Two searches that each went as far as they could from one process found the same ones.
pub proof fn trees_hold_the_same_processes(
    processes: Seq<ProcessEntry>,
    root: u32,
    first: Seq<u32>,
    second: Seq<u32>,
    pid: u32,
)
    requires
        is_tree(processes, root, first),
        is_closed(processes, first),
        is_tree(processes, root, second),
        is_closed(processes, second),
    ensures
        first.contains(pid) == second.contains(pid),
        first.contains(root),
{
    if first.contains(pid) {
        let i = choose|i: int| 0 <= i < first.len() && first[i] == pid;
        lemma_member_is_reached(processes, root, first, second, i);
    }
    if second.contains(pid) {
        let i = choose|i: int| 0 <= i < second.len() && second[i] == pid;
        lemma_member_is_reached(processes, root, second, first, i);
    }
    assert(first[0] == root);
}

proof fn lemma_member_is_reached(
    processes: Seq<ProcessEntry>,
    root: u32,
    first: Seq<u32>,
    second: Seq<u32>,
    i: int,
)
    requires
        is_tree(processes, root, first),
        is_tree(processes, root, second),
        is_closed(processes, second),
        0 <= i < first.len(),
    ensures
        second.contains(first[i]),
    decreases i,
{
    if i == 0 {
        assert(second[0] == root);
    } else {
        let j = choose|j: int| 0 <= j < i && is_child(processes, first[i], #[trigger] first[j]);
        lemma_member_is_reached(processes, root, first, second, j);
        assert(is_child(processes, first[i], first[j]));
    }
}

/// The memory of a process is that of its first entry; and a tree's is what its members below
/// the first take, one added to the others.
pub proof fn memory_adds_up(processes: Seq<ProcessEntry>, visited: Seq<u32>, pid: u32, at: int)
    requires
        visited.len() >= 1,
    ensures
        rss_below(processes, visited.push(pid)) == rss_below(processes, visited) + rss_of(
            processes,
            pid,
        ),
        rss_below(processes, seq![pid]) == 0,
        0 <= at < processes.len() && processes[at].pid == pid && (forall|i: int|
            0 <= i < at ==> (#[trigger] processes[i]).pid != pid) ==> rss_of(processes, pid) == (
        match processes[at].rss {
            Some(rss) => rss as nat,
            None => 0,
        }),
        (forall|i: int| 0 <= i < processes.len() ==> (#[trigger] processes[i]).pid != pid)
            ==> rss_of(processes, pid) == 0,
    decreases processes.len(),
{
    assert(visited.push(pid).drop_last() =~= visited);
    if processes.len() > 0 && processes[0].pid != pid {
        let rest = processes.drop_first();
        memory_adds_up(rest, visited, pid, at - 1);
        assert forall|i: int| 0 <= i < rest.len() implies #[trigger] rest[i] == processes[i + 1] by {
        }
    }
}

/// A sum that runs over stays at the largest number there is.
pub proof fn sums_stay_within_reach(first: nat, second: nat)
    ensures
        clamped(first) <= u64::MAX,
        clamped(first) <= first,
        first <= u64::MAX ==> clamped(first) == first,
        clamped(clamped(first) + second) == clamped(first + second),
{
}

/// It is all one in which order the sources are asked: one that has arrived is enough, and it
/// takes all of them to be closed.
pub proof fn sources_count_alike(first: SignalPoll, second: SignalPoll, third: SignalPoll)
    ensures
        polled_together(first, second, third) == polled_together(second, first, third),
        polled_together(first, second, third) == polled_together(first, third, second),
        polled_together(SignalPoll::Arrived, second, third) == SignalPoll::Arrived,
        polled_together(first, first, first) == first,
        polled_together(SignalPoll::Pending, second, third) != SignalPoll::Closed,
        polled_together(first, second, third) == SignalPoll::Arrived ==> first
            == SignalPoll::Arrived || second == SignalPoll::Arrived || third == SignalPoll::Arrived,
{
}

/// Identifiers are taken as they are, from one up to the largest that is positive when signed.
pub proof fn positive_identifiers_are_taken(pid: u32, valid: Result<u32, ProcessInspectError>)
    requires
        call_ensures(process_id, (pid,), valid),
    ensures
        valid is Ok <==> 1 <= pid <= i32::MAX,
        valid is Ok ==> valid->Ok_0 == pid,
        valid is Err ==> valid->Err_0.kind == ProcessInspectErrorKind::InvalidPid,
{
}

/// A process that cannot be opened is gone where the host says that there is none of that number,
/// and a failure otherwise, told the same way to all that ask.
pub proof fn missing_processes_are_told_alike(
    source: HostError,
    opened: ProcessInspectError,
    watched: ProcessInspectError,
    acted: Result<ProcessIdentityAction, ProcessIdentityActionError>,
)
    requires
        call_ensures(open_failure, (source,), opened),
        call_ensures(watch_open_failure, (source,), watched),
        call_ensures(action_open_failure, (source,), acted),
    ensures
        opened.kind == watched.kind,
        opened.kind == ProcessInspectErrorKind::NotFound <==> source.code == Some(87i32),
        acted is Ok <==> source.code == Some(87i32),
        acted is Ok ==> acted->Ok_0 == ProcessIdentityAction::AlreadyExited,
        acted is Err && acted->Err_0 is PermissionDenied <==> source.code == Some(5i32),
{
}

/// What a wait brought: the end, a failure, or neither.
pub proof fn waits_end_in_one_way(waited: u32, outcome: ExitWait)
    requires
        call_ensures(exit_wait, (waited,), outcome),
    ensures
        outcome is Exited <==> waited == 0,
        outcome is Failed <==> waited == u32::MAX,
{
}

/// A handle that can be waited on tells whether its process lives; without one the code does.
pub proof fn living_processes_have_not_exited(
    waitable: bool,
    already_exited: bool,
    exit_code: Option<u32>,
    alive: bool,
)
    requires
        call_ensures(is_alive, (waitable, already_exited, exit_code), alive),
    ensures
        waitable ==> alive != already_exited,
        !waitable ==> (alive <==> exit_code == Some(259u32)),
{
}

/// A reported end keeps its code, bit for bit.
pub proof fn reported_ends_keep_their_code(
    first: Option<u32>,
    second: Option<u32>,
    one: ProcessExitObservation,
    two: ProcessExitObservation,
)
    requires
        call_ensures(exit_status, (first,), one),
        call_ensures(exit_status, (second,), two),
    ensures
        one == two ==> first == second,
        match one {
            ProcessExitObservation::Unreported => first is None,
            ProcessExitObservation::Reported { code, native } => first == Some(native) && (code
                == native || code + 0x1_0000_0000 == native),
        },
{
}

} // verus!
