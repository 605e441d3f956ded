//! The order of work of operations on webviews: the host performs one step at a time
//! and reports how it went.
use vstd::prelude::*;

use crate::tauri::hub::{HubError, Terminal};
use crate::tauri::sketch::WebviewJob;
use crate::tauri::webview::{
    is_mapped_hub, is_mapped_native, map_hub, map_native, native_terminal, terminal_for_native,
    NativeWebviewError, WebviewError,
};

verus! {

// ---------------------------------------------------------------------------
// Jobs of a guest
// ---------------------------------------------------------------------------

/// Where a job of a guest stands.
#[derive(Clone, Copy, Debug, PartialEq, Eq, Structural)]
pub enum JobStage {
    /// Look whether the job was cancelled before it began.
    Begin,
    /// Let the granted address through.
    Parse,
    /// Open the native view, unless cancelled meanwhile.
    OpenNative,
    /// Take hold of what tells the view's end.
    TakeTerminal,
    /// Keep the view.
    Store,
    /// Start to watch for its end.
    Watch,
    /// Publish the view to the guest.
    Publish,
    /// Take hold of what tells that the page is loaded.
    TakeLoad,
    /// Wait for the page, up to [`JOB_WAIT_MS`], unless cancelled meanwhile.
    AwaitLoad,
    /// Report the load.
    FinishLoad,
    /// Start to capture.
    Capture,
    /// Wait for the capture to end, up to [`JOB_WAIT_MS`].
    AwaitCapture,
    /// Report that the capture took too long.
    FinishLate,
    /// Note that the end of the view was asked for.
    MarkClosing,
    /// Take the view out.
    TakeNative,
    /// Take hold of what tells that the window is gone.
    TakeClosed,
    /// Ask the window to close.
    AskClose,
    /// Wait until it is gone, up to [`JOB_WAIT_MS`], unless cancelled meanwhile.
    AwaitClosed,
    /// Report the end.
    FinishClose,
    /// Revoke the view.
    Revoke,
    /// Forget that the end was asked for.
    ClearClosing { failed: bool },
    Done,
    /// Report the first failure.
    Failed,
}

/// The stage after the work of `stage` was tried.
pub open spec fn job_next(job: WebviewJob, stage: JobStage, succeeded: bool) -> JobStage {
    match stage {
        JobStage::Begin => if !succeeded {
            JobStage::Failed
        } else {
            match job {
                WebviewJob::Open => JobStage::Parse,
                WebviewJob::Load => JobStage::TakeLoad,
                WebviewJob::Capture => JobStage::Capture,
                WebviewJob::Close => JobStage::MarkClosing,
            }
        },
        JobStage::Parse => if succeeded { JobStage::OpenNative } else { JobStage::Failed },
        JobStage::OpenNative => if succeeded { JobStage::TakeTerminal } else { JobStage::Failed },
        JobStage::TakeTerminal => if succeeded { JobStage::Store } else { JobStage::Failed },
        JobStage::Store => if succeeded { JobStage::Watch } else { JobStage::Failed },
        JobStage::Watch => if succeeded { JobStage::Publish } else { JobStage::Failed },
        JobStage::Publish => if succeeded { JobStage::Done } else { JobStage::Failed },
        JobStage::TakeLoad => if succeeded { JobStage::AwaitLoad } else { JobStage::Failed },
        JobStage::AwaitLoad => if succeeded { JobStage::FinishLoad } else { JobStage::Failed },
        JobStage::FinishLoad => JobStage::Done,
        JobStage::Capture => if succeeded { JobStage::AwaitCapture } else { JobStage::Failed },
        JobStage::AwaitCapture => if succeeded { JobStage::Done } else { JobStage::FinishLate },
        JobStage::FinishLate => JobStage::Done,
        JobStage::MarkClosing => JobStage::TakeNative,
        JobStage::TakeNative => if succeeded {
            JobStage::TakeClosed
        } else {
            JobStage::ClearClosing { failed: true }
        },
        JobStage::TakeClosed => if succeeded {
            JobStage::AskClose
        } else {
            JobStage::ClearClosing { failed: true }
        },
        JobStage::AskClose => if succeeded {
            JobStage::AwaitClosed
        } else {
            JobStage::ClearClosing { failed: true }
        },
        JobStage::AwaitClosed => if succeeded {
            JobStage::FinishClose
        } else {
            JobStage::ClearClosing { failed: true }
        },
        JobStage::FinishClose => JobStage::Revoke,
        JobStage::Revoke => JobStage::ClearClosing { failed: false },
        JobStage::ClearClosing { failed } => if failed { JobStage::Failed } else { JobStage::Done },
        JobStage::Done => JobStage::Done,
        JobStage::Failed => JobStage::Failed,
    }
}

/// [`job_next`] as code.
pub fn execute(job: WebviewJob, stage: JobStage, succeeded: bool) -> (next: JobStage)
    ensures
        next == job_next(job, stage, succeeded),
{
    match stage {
        JobStage::Begin => if !succeeded {
            JobStage::Failed
        } else {
            match job {
                WebviewJob::Open => JobStage::Parse,
                WebviewJob::Load => JobStage::TakeLoad,
                WebviewJob::Capture => JobStage::Capture,
                WebviewJob::Close => JobStage::MarkClosing,
            }
        },
        JobStage::Parse => or_failed(succeeded, JobStage::OpenNative),
        JobStage::OpenNative => or_failed(succeeded, JobStage::TakeTerminal),
        JobStage::TakeTerminal => or_failed(succeeded, JobStage::Store),
        JobStage::Store => or_failed(succeeded, JobStage::Watch),
        JobStage::Watch => or_failed(succeeded, JobStage::Publish),
        JobStage::Publish => or_failed(succeeded, JobStage::Done),
        JobStage::TakeLoad => or_failed(succeeded, JobStage::AwaitLoad),
        JobStage::AwaitLoad => or_failed(succeeded, JobStage::FinishLoad),
        JobStage::FinishLoad => JobStage::Done,
        JobStage::Capture => or_failed(succeeded, JobStage::AwaitCapture),
        JobStage::AwaitCapture => if succeeded {
            JobStage::Done
        } else {
            JobStage::FinishLate
        },
        JobStage::FinishLate => JobStage::Done,
        JobStage::MarkClosing => JobStage::TakeNative,
        JobStage::TakeNative => or_cleared(succeeded, JobStage::TakeClosed),
        JobStage::TakeClosed => or_cleared(succeeded, JobStage::AskClose),
        JobStage::AskClose => or_cleared(succeeded, JobStage::AwaitClosed),
        JobStage::AwaitClosed => or_cleared(succeeded, JobStage::FinishClose),
        JobStage::FinishClose => JobStage::Revoke,
        JobStage::Revoke => JobStage::ClearClosing { failed: false },
        JobStage::ClearClosing { failed } => if failed {
            JobStage::Failed
        } else {
            JobStage::Done
        },
        JobStage::Done => JobStage::Done,
        JobStage::Failed => JobStage::Failed,
    }
}

fn or_failed(succeeded: bool, next: JobStage) -> (stage: JobStage)
    ensures
        stage == if succeeded { next } else { JobStage::Failed },
{
    if succeeded {
        next
    } else {
        JobStage::Failed
    }
}

fn or_cleared(succeeded: bool, next: JobStage) -> (stage: JobStage)
    ensures
        stage == if succeeded { next } else { JobStage::ClearClosing { failed: true } },
{
    if succeeded {
        next
    } else {
        JobStage::ClearClosing { failed: true }
    }
}

/// How long a job waits at a stage, in milliseconds.
pub const JOB_WAIT_MS: u64 = 30_000;

/// For how long the work of a stage may be waited for; the other stages wait for nothing
/// or for as long as it takes.
pub fn wait_limit(stage: JobStage) -> (limit_ms: Option<u64>)
    ensures
        limit_ms == match stage {
            JobStage::AwaitLoad => Some(JOB_WAIT_MS),
            JobStage::AwaitCapture => Some(JOB_WAIT_MS),
            JobStage::AwaitClosed => Some(JOB_WAIT_MS),
            _ => None,
        },
{
    match stage {
        JobStage::AwaitLoad => Some(JOB_WAIT_MS),
        JobStage::AwaitCapture => Some(JOB_WAIT_MS),
        JobStage::AwaitClosed => Some(JOB_WAIT_MS),
        _ => None,
    }
}

/// The failure of a stage that fails in one way only; the others fail as the host
/// says.
pub fn stage_failure(stage: JobStage) -> (failure: Option<WebviewError>)
    ensures
        failure == match stage {
            JobStage::Begin => Some(WebviewError::Cancelled),
            JobStage::Store => Some(WebviewError::WindowClosed),
            JobStage::Publish => Some(WebviewError::Cancelled),
            JobStage::TakeNative => Some(WebviewError::WindowClosed),
            _ => None,
        },
{
    match stage {
        JobStage::Begin => Some(WebviewError::Cancelled),
        JobStage::Store => Some(WebviewError::WindowClosed),
        JobStage::Publish => Some(WebviewError::Cancelled),
        JobStage::TakeNative => Some(WebviewError::WindowClosed),
        _ => None,
    }
}

/// The stage that a history of outcomes leads to.
pub open spec fn job_after(job: WebviewJob, outcomes: Seq<bool>) -> JobStage
    decreases outcomes.len(),
{
    if outcomes.len() == 0 {
        JobStage::Begin
    } else {
        job_next(job, job_after(job, outcomes.drop_last()), outcomes.last())
    }
}

/// Whether a job has passed a stage.
pub open spec fn passed(job: WebviewJob, outcomes: Seq<bool>, stage: JobStage) -> bool {
    exists|n: nat| n < outcomes.len() && #[trigger] job_after(job, outcomes.take(n as int)) == stage
}

/// How far along a job is; every step goes on.
spec fn job_rank(stage: JobStage) -> nat {
    match stage {
        JobStage::Begin => 0,
        JobStage::Parse => 1,
        JobStage::OpenNative => 2,
        JobStage::TakeTerminal => 3,
        JobStage::Store => 4,
        JobStage::Watch => 5,
        JobStage::Publish => 6,
        JobStage::TakeLoad => 1,
        JobStage::AwaitLoad => 2,
        JobStage::FinishLoad => 3,
        JobStage::Capture => 1,
        JobStage::AwaitCapture => 2,
        JobStage::FinishLate => 3,
        JobStage::MarkClosing => 1,
        JobStage::TakeNative => 2,
        JobStage::TakeClosed => 3,
        JobStage::AskClose => 4,
        JobStage::AwaitClosed => 5,
        JobStage::FinishClose => 6,
        JobStage::Revoke => 7,
        JobStage::ClearClosing { failed } => 8,
        JobStage::Done => 9,
        JobStage::Failed => 9,
    }
}

proof fn lemma_job_progress(job: WebviewJob, outcomes: Seq<bool>)
    ensures
        job_rank(job_after(job, outcomes)) >= outcomes.len() || job_rank(job_after(job, outcomes))
            == 9,
    decreases outcomes.len(),
{
    if outcomes.len() > 0 {
        lemma_job_progress(job, outcomes.drop_last());
    }
}

/// Every job ends after a bounded number of steps, whatever comes of them.
pub proof fn jobs_end(job: WebviewJob, outcomes: Seq<bool>)
    requires
        outcomes.len() >= 9,
    ensures
        job_after(job, outcomes) == JobStage::Done || job_after(job, outcomes) == JobStage::Failed,
{
    lemma_job_progress(job, outcomes);
}

proof fn lemma_job_history(job: WebviewJob, outcomes: Seq<bool>)
    ensures
        match job_after(job, outcomes) {
            JobStage::Publish => job == WebviewJob::Open && outcomes == seq![
                true,
                true,
                true,
                true,
                true,
                true,
            ],
            JobStage::Watch => job == WebviewJob::Open && outcomes == seq![
                true,
                true,
                true,
                true,
                true,
            ],
            JobStage::Store => job == WebviewJob::Open && outcomes == seq![true, true, true, true],
            JobStage::TakeTerminal => job == WebviewJob::Open && outcomes == seq![true, true, true],
            JobStage::OpenNative => job == WebviewJob::Open && outcomes == seq![true, true],
            JobStage::Parse => job == WebviewJob::Open && outcomes == seq![true],
            JobStage::FinishLoad => job == WebviewJob::Load && outcomes == seq![true, true, true],
            JobStage::AwaitLoad => job == WebviewJob::Load && outcomes == seq![true, true],
            JobStage::TakeLoad => job == WebviewJob::Load && outcomes == seq![true],
            JobStage::Begin => outcomes.len() == 0,
            _ => true,
        },
    decreases outcomes.len(),
{
    if outcomes.len() > 0 {
        let before = outcomes.drop_last();
        lemma_job_history(job, before);
        assert(outcomes =~= before.push(outcomes.last()));
        match job_after(job, outcomes) {
            JobStage::Publish => assert(outcomes =~= seq![true, true, true, true, true, true]),
            JobStage::Watch => assert(outcomes =~= seq![true, true, true, true, true]),
            JobStage::Store => assert(outcomes =~= seq![true, true, true, true]),
            JobStage::TakeTerminal => assert(outcomes =~= seq![true, true, true]),
            JobStage::OpenNative => assert(outcomes =~= seq![true, true]),
            JobStage::Parse => assert(outcomes =~= seq![true]),
            JobStage::FinishLoad => assert(outcomes =~= seq![true, true, true]),
            JobStage::AwaitLoad => assert(outcomes =~= seq![true, true]),
            JobStage::TakeLoad => assert(outcomes =~= seq![true]),
            _ => {},
        }
    }
}

/// A view is published to its guest only after it was opened, kept and is watched;
/// a load is reported only after the page was loaded.
pub proof fn only_finished_work_is_published(job: WebviewJob, outcomes: Seq<bool>)
    ensures
        job_after(job, outcomes) == JobStage::Publish ==> outcomes == seq![
            true,
            true,
            true,
            true,
            true,
            true,
        ],
        job_after(job, outcomes) == JobStage::FinishLoad ==> outcomes == seq![true, true, true],
{
    lemma_job_history(job, outcomes);
}

proof fn lemma_close_stages(outcomes: Seq<bool>)
    ensures
        ({
            let stage = job_after(WebviewJob::Close, outcomes);
            match stage {
                JobStage::Begin => outcomes.len() == 0,
                JobStage::MarkClosing => true,
                JobStage::TakeNative => true,
                JobStage::TakeClosed => true,
                JobStage::AskClose => true,
                JobStage::AwaitClosed => true,
                JobStage::FinishClose => true,
                JobStage::Revoke => true,
                JobStage::ClearClosing { failed } => true,
                JobStage::Done => passed(
                    WebviewJob::Close,
                    outcomes,
                    JobStage::ClearClosing { failed: false },
                ),
                JobStage::Failed => !outcomes[0] || passed(
                    WebviewJob::Close,
                    outcomes,
                    JobStage::ClearClosing { failed: true },
                ),
                _ => false,
            }
        }),
    decreases outcomes.len(),
{
    if outcomes.len() > 0 {
        let job = WebviewJob::Close;
        let before = outcomes.drop_last();
        let last = (outcomes.len() - 1) as nat;
        lemma_close_stages(before);
        assert(outcomes.take(last as int) =~= before);
        let stage = job_after(job, outcomes);
        let earlier = job_after(job, before);
        if before.len() > 0 {
            assert(before[0] == outcomes[0]);
        }
        if stage == JobStage::Done || stage == JobStage::Failed {
            if earlier is ClearClosing {
                assert(job_after(job, outcomes.take(last as int)) == earlier);
            } else if earlier == JobStage::Done || (earlier == JobStage::Failed && before[0]) {
                let cleared = JobStage::ClearClosing { failed: earlier == JobStage::Failed };
                let n = choose|n: nat|
                    n < before.len() && #[trigger] job_after(job, before.take(n as int)) == cleared;
                assert(before.take(n as int) =~= outcomes.take(n as int));
                assert(job_after(job, outcomes.take(n as int)) == cleared);
            }
        }
    }
}

/// A job that asks for the end of a view always takes back the note of it: when it is
/// over, it was not begun at all or the note was cleared.
pub proof fn closing_notes_are_cleared(outcomes: Seq<bool>)
    requires
        job_after(WebviewJob::Close, outcomes) == JobStage::Done || job_after(
            WebviewJob::Close,
            outcomes,
        ) == JobStage::Failed,
    ensures
        !outcomes[0] || passed(
            WebviewJob::Close,
            outcomes,
            JobStage::ClearClosing {
                failed: job_after(WebviewJob::Close, outcomes) == JobStage::Failed,
            },
        ),
{
    lemma_close_stages(outcomes);
}

// ---------------------------------------------------------------------------
// Opening
// ---------------------------------------------------------------------------

/// Where the opening of a view stands.
#[derive(Clone, Copy, Debug, PartialEq, Eq, Structural)]
pub enum OpenStage {
    /// Let the address through.
    Parse,
    /// Have the hub set an operation and a resource aside.
    Begin,
    /// Open the native view.
    OpenNative,
    /// Tell the hub how opening failed, and revoke the resource.
    Withdraw,
    /// Take hold of what tells the view's end.
    TakeTerminal,
    /// Keep the view.
    Store,
    /// Tell the hub that the view is open.
    FinishOpen,
    /// Start to watch for its end.
    Watch,
    /// Ask the hub what became of the operation.
    Observe,
    /// Have the hub set an operation aside for the end of the view.
    BeginTerminal,
    /// Hand the view over.
    Done,
    /// Report the first failure.
    Failed,
}

pub open spec fn open_next(stage: OpenStage, succeeded: bool) -> OpenStage {
    match stage {
        OpenStage::Parse => if succeeded { OpenStage::Begin } else { OpenStage::Failed },
        OpenStage::Begin => if succeeded { OpenStage::OpenNative } else { OpenStage::Failed },
        OpenStage::OpenNative => if succeeded {
            OpenStage::TakeTerminal
        } else {
            OpenStage::Withdraw
        },
        OpenStage::Withdraw => OpenStage::Failed,
        OpenStage::TakeTerminal => if succeeded { OpenStage::Store } else { OpenStage::Failed },
        OpenStage::Store => if succeeded { OpenStage::FinishOpen } else { OpenStage::Failed },
        OpenStage::FinishOpen => OpenStage::Watch,
        OpenStage::Watch => OpenStage::Observe,
        OpenStage::Observe => if succeeded { OpenStage::BeginTerminal } else { OpenStage::Failed },
        OpenStage::BeginTerminal => if succeeded { OpenStage::Done } else { OpenStage::Failed },
        OpenStage::Done => OpenStage::Done,
        OpenStage::Failed => OpenStage::Failed,
    }
}

/// [`open_next`] as code.
pub fn open_webview(stage: OpenStage, succeeded: bool) -> (next: OpenStage)
    ensures
        next == open_next(stage, succeeded),
{
    let reached = match stage {
        OpenStage::Parse => OpenStage::Begin,
        OpenStage::Begin => OpenStage::OpenNative,
        OpenStage::OpenNative => {
            return if succeeded {
                OpenStage::TakeTerminal
            } else {
                OpenStage::Withdraw
            };
        },
        OpenStage::Withdraw => {
            return OpenStage::Failed;
        },
        OpenStage::TakeTerminal => OpenStage::Store,
        OpenStage::Store => OpenStage::FinishOpen,
        OpenStage::FinishOpen => {
            return OpenStage::Watch;
        },
        OpenStage::Watch => {
            return OpenStage::Observe;
        },
        OpenStage::Observe => OpenStage::BeginTerminal,
        OpenStage::BeginTerminal => OpenStage::Done,
        OpenStage::Done => {
            return OpenStage::Done;
        },
        OpenStage::Failed => {
            return OpenStage::Failed;
        },
    };
    if succeeded {
        reached
    } else {
        OpenStage::Failed
    }
}

/// What a view that could not be opened is withdrawn with, and reported as.
pub fn open_failure(error: NativeWebviewError) -> (failure: (Terminal, WebviewError))
    ensures
        failure.0 == native_terminal(error),
        is_mapped_native(error, failure.1),
{
    let terminal = terminal_for_native(&error);
    (terminal, map_native(error))
}

/// The stage that a history of outcomes leads to.
pub open spec fn open_after(outcomes: Seq<bool>) -> OpenStage
    decreases outcomes.len(),
{
    if outcomes.len() == 0 {
        OpenStage::Parse
    } else {
        open_next(open_after(outcomes.drop_last()), outcomes.last())
    }
}

proof fn lemma_open_history(outcomes: Seq<bool>)
    ensures
        match open_after(outcomes) {
            OpenStage::Parse => outcomes.len() == 0,
            OpenStage::Begin => outcomes == seq![true],
            OpenStage::OpenNative => outcomes == seq![true, true],
            OpenStage::Withdraw => outcomes == seq![true, true, false],
            OpenStage::TakeTerminal => outcomes == seq![true, true, true],
            OpenStage::Store => outcomes == seq![true, true, true, true],
            OpenStage::FinishOpen => outcomes == seq![true, true, true, true, true],
            OpenStage::Watch => outcomes.len() == 6 && outcomes.take(5) == seq![
                true,
                true,
                true,
                true,
                true,
            ],
            OpenStage::Observe => outcomes.len() == 7 && outcomes.take(5) == seq![
                true,
                true,
                true,
                true,
                true,
            ],
            OpenStage::BeginTerminal => outcomes.len() == 8 && outcomes[7] == true
                && outcomes.take(5) == seq![true, true, true, true, true],
            OpenStage::Done => outcomes.len() >= 9 && outcomes[7] && outcomes[8] && outcomes.take(5)
                == seq![true, true, true, true, true],
            OpenStage::Failed => outcomes.len() > 0,
        },
    decreases outcomes.len(),
{
    if outcomes.len() > 0 {
        let before = outcomes.drop_last();
        lemma_open_history(before);
        assert(outcomes =~= before.push(outcomes.last()));
        match open_after(outcomes) {
            OpenStage::Begin => assert(outcomes =~= seq![true]),
            OpenStage::OpenNative => assert(outcomes =~= seq![true, true]),
            OpenStage::Withdraw => assert(outcomes =~= seq![true, true, false]),
            OpenStage::TakeTerminal => assert(outcomes =~= seq![true, true, true]),
            OpenStage::Store => assert(outcomes =~= seq![true, true, true, true]),
            OpenStage::FinishOpen => assert(outcomes =~= seq![true, true, true, true, true]),
            OpenStage::Watch => assert(outcomes.take(5) =~= before),
            OpenStage::Observe => assert(outcomes.take(5) =~= before.take(5)),
            OpenStage::BeginTerminal => assert(outcomes.take(5) =~= before.take(5)),
            OpenStage::Done => assert(outcomes.take(5) =~= before.take(5)),
            _ => {},
        }
    }
}

/// Nothing is set aside, and nothing native happens, for an address that is refused;
/// and a view is handed over only after it was let through, opened and kept.
pub proof fn refused_addresses_have_no_effect(outcomes: Seq<bool>)
    ensures
        open_after(outcomes) == OpenStage::Begin || open_after(outcomes) == OpenStage::OpenNative
            ==> outcomes[0],
        open_after(outcomes) == OpenStage::Withdraw ==> outcomes[0] && outcomes[1] && !outcomes[2],
        open_after(outcomes) == OpenStage::Done ==> outcomes.take(5) == seq![
            true,
            true,
            true,
            true,
            true,
        ],
{
    lemma_open_history(outcomes);
}

// ---------------------------------------------------------------------------
// Waiting
// ---------------------------------------------------------------------------

/// What is done after a page was waited for: the operation ends in that way, and the
/// view is revoked unless the page was loaded.
pub fn after_load(terminal: Terminal) -> (revoked_with: Option<Terminal>)
    ensures
        revoked_with == if terminal == Terminal::Completed { None } else { Some(terminal) },
{
    if terminal == Terminal::Completed {
        None
    } else {
        Some(terminal)
    }
}

/// What is done about the end of a view that is waited for.
#[derive(Debug)]
pub enum TerminalStep {
    /// It has ended: report how.
    Report { error: WebviewError },
    /// Wait for the hub to wake.
    Wait,
    /// Revoke the view, which took too long, and look again.
    RevokeAndLook,
    /// Look again.
    Look,
}

/// What a first look at the hub leads to. An end that came before is not lost.
pub fn first_look(observed: Result<Option<Terminal>, HubError>) -> (step: TerminalStep)
    ensures
        match (observed, step) {
            (Ok(Some(terminal)), TerminalStep::Report { error }) =>
                crate::tauri::webview::is_mapped_terminal(terminal, error),
            (Ok(None), TerminalStep::Wait) => true,
            (Err(refusal), TerminalStep::Report { error }) => is_mapped_hub(refusal, error),
            _ => false,
        },
{
    match observed {
        Ok(Some(terminal)) => TerminalStep::Report {
            error: crate::tauri::webview::map_terminal(terminal),
        },
        Ok(None) => TerminalStep::Wait,
        Err(refusal) => TerminalStep::Report { error: map_hub(refusal) },
    }
}

/// What waiting leads to. `woken` is whether the hub woke in time, or why it could not
/// be waited for: an operation that has ended meanwhile is closed, and is looked at
/// again.
pub fn after_waiting(woken: Result<bool, HubError>) -> (step: TerminalStep)
    ensures
        match (woken, step) {
            (Ok(true), TerminalStep::Look) => true,
            (Ok(false), TerminalStep::RevokeAndLook) => true,
            (Err(HubError::Closed), TerminalStep::Look) => true,
            (Err(refusal), TerminalStep::Report { error }) => refusal != HubError::Closed
                && is_mapped_hub(refusal, error),
            _ => false,
        },
{
    match woken {
        Ok(true) => TerminalStep::Look,
        Ok(false) => TerminalStep::RevokeAndLook,
        Err(refusal) => if refusal == HubError::Closed {
            TerminalStep::Look
        } else {
            TerminalStep::Report { error: map_hub(refusal) }
        },
    }
}

// ---------------------------------------------------------------------------
// Capturing
// ---------------------------------------------------------------------------

/// Where a capture stands.
#[derive(Clone, Copy, Debug, PartialEq, Eq, Structural)]
pub enum CaptureStage {
    /// Refuse limits that nothing could meet.
    CheckLimits,
    /// Have the hub set an operation aside.
    Begin,
    /// Ask the native view.
    Ask,
    /// End the operation as rejected, and take its result off the hub.
    Withdraw,
    /// Wait for the hub to wake.
    Wait,
    /// End the operation, which took too long.
    FinishLate,
    /// Take the result off the hub.
    Observe,
    Done,
    /// Report the first failure.
    Failed,
}

/// How a step of a capture went.
#[derive(Clone, Copy, Debug, PartialEq, Eq, Structural)]
pub enum CaptureEvent {
    Succeeded,
    Failed,
    /// It took too long.
    Late,
}

pub open spec fn capture_next(stage: CaptureStage, event: CaptureEvent) -> CaptureStage {
    match (stage, event) {
        (CaptureStage::CheckLimits, CaptureEvent::Succeeded) => CaptureStage::Begin,
        (CaptureStage::Begin, CaptureEvent::Succeeded) => CaptureStage::Ask,
        (CaptureStage::Ask, CaptureEvent::Succeeded) => CaptureStage::Wait,
        (CaptureStage::Ask, _) => CaptureStage::Withdraw,
        (CaptureStage::Wait, CaptureEvent::Succeeded) => CaptureStage::Observe,
        (CaptureStage::Wait, CaptureEvent::Late) => CaptureStage::FinishLate,
        (CaptureStage::FinishLate, _) => CaptureStage::Observe,
        (CaptureStage::Observe, CaptureEvent::Succeeded) => CaptureStage::Done,
        (CaptureStage::Done, _) => CaptureStage::Done,
        _ => CaptureStage::Failed,
    }
}

/// [`capture_next`] as code.
pub fn capture_visible_png(stage: CaptureStage, event: CaptureEvent) -> (next: CaptureStage)
    ensures
        next == capture_next(stage, event),
{
    match (stage, event) {
        (CaptureStage::CheckLimits, CaptureEvent::Succeeded) => CaptureStage::Begin,
        (CaptureStage::Begin, CaptureEvent::Succeeded) => CaptureStage::Ask,
        (CaptureStage::Ask, CaptureEvent::Succeeded) => CaptureStage::Wait,
        (CaptureStage::Ask, _) => CaptureStage::Withdraw,
        (CaptureStage::Wait, CaptureEvent::Succeeded) => CaptureStage::Observe,
        (CaptureStage::Wait, CaptureEvent::Late) => CaptureStage::FinishLate,
        (CaptureStage::FinishLate, _) => CaptureStage::Observe,
        (CaptureStage::Observe, CaptureEvent::Succeeded) => CaptureStage::Done,
        (CaptureStage::Done, _) => CaptureStage::Done,
        _ => CaptureStage::Failed,
    }
}

/// What waiting for a capture leads to, and what is reported if it failed. `woken` is
/// whether the hub woke in time, or why it could not be waited for: a capture that has
/// ended meanwhile is closed, and its result is looked at.
pub fn after_capture_wait(woken: Result<bool, HubError>) -> (outcome: (
    CaptureEvent,
    Option<WebviewError>,
))
    ensures
        match woken {
            Ok(true) => outcome.0 == CaptureEvent::Succeeded && outcome.1 is None,
            Ok(false) => outcome.0 == CaptureEvent::Late && outcome.1 is None,
            Err(HubError::Closed) => outcome.0 == CaptureEvent::Succeeded && outcome.1 is None,
            Err(refusal) => outcome.0 == CaptureEvent::Failed && outcome.1 is Some
                && is_mapped_hub(refusal, outcome.1->Some_0),
        },
{
    match woken {
        Ok(true) => (CaptureEvent::Succeeded, None),
        Ok(false) => (CaptureEvent::Late, None),
        Err(refusal) => if refusal == HubError::Closed {
            (CaptureEvent::Succeeded, None)
        } else {
            (CaptureEvent::Failed, Some(map_hub(refusal)))
        },
    }
}

/// The stage that a history of events leads to.
pub open spec fn capture_after(events: Seq<CaptureEvent>) -> CaptureStage
    decreases events.len(),
{
    if events.len() == 0 {
        CaptureStage::CheckLimits
    } else {
        capture_next(capture_after(events.drop_last()), events.last())
    }
}

proof fn lemma_capture_history(events: Seq<CaptureEvent>)
    ensures
        match capture_after(events) {
            CaptureStage::CheckLimits => events.len() == 0,
            CaptureStage::Failed => events.len() > 0,
            CaptureStage::Withdraw => events.len() == 3 && events[0] == CaptureEvent::Succeeded
                && events[1] == CaptureEvent::Succeeded && events[2] != CaptureEvent::Succeeded,
            CaptureStage::Begin => events.len() == 1 && events[0] == CaptureEvent::Succeeded,
            CaptureStage::Ask => events.len() == 2 && events[0] == CaptureEvent::Succeeded
                && events[1] == CaptureEvent::Succeeded,
            _ => events.len() >= 3 && events[0] == CaptureEvent::Succeeded && events[1]
                == CaptureEvent::Succeeded && events[2] == CaptureEvent::Succeeded,
        },
    decreases events.len(),
{
    if events.len() > 0 {
        let before = events.drop_last();
        lemma_capture_history(before);
        assert forall|i: int| 0 <= i < before.len() implies #[trigger] events[i] == before[i] by {
        }
    }
}

/// Nothing is set aside for a capture whose limits nothing could meet; and an image is
/// handed over only of a view that was asked for it.
pub proof fn captures_are_asked_for_within_limits(events: Seq<CaptureEvent>)
    ensures
        capture_after(events) == CaptureStage::Begin ==> events[0] == CaptureEvent::Succeeded,
        capture_after(events) == CaptureStage::Ask ==> events[0] == CaptureEvent::Succeeded,
        capture_after(events) == CaptureStage::Done ==> events[0] == CaptureEvent::Succeeded
            && events[1] == CaptureEvent::Succeeded && events[2] == CaptureEvent::Succeeded,
{
    lemma_capture_history(events);
}

// ---------------------------------------------------------------------------
// Closing
// ---------------------------------------------------------------------------

/// Where the closing of a view stands.
#[derive(Clone, Copy, Debug, PartialEq, Eq, Structural)]
pub enum CloseStage {
    /// Have the hub set an operation aside.
    Begin,
    /// Note that the end of the view was asked for.
    Mark,
    /// Take the view out.
    TakeNative,
    /// Take hold of what tells that the window is gone.
    TakeClosed,
    /// Ask the window to close.
    AskClose,
    /// End the operation and revoke the view, both with the failure.
    Withdraw,
    /// Wait until the window is gone.
    Await,
    /// End the operation.
    Finish,
    /// Ask the hub what became of it.
    Observe,
    /// Give the resource back to the hub.
    GiveBack { failed: bool },
    /// Forget that the end was asked for.
    Clear { failed: bool },
    Done,
    /// Report the first failure.
    Failed,
}

pub open spec fn close_next(stage: CloseStage, succeeded: bool) -> CloseStage {
    match stage {
        CloseStage::Begin => if succeeded { CloseStage::Mark } else { CloseStage::Failed },
        CloseStage::Mark => CloseStage::TakeNative,
        CloseStage::TakeNative => if succeeded {
            CloseStage::TakeClosed
        } else {
            CloseStage::Clear { failed: true }
        },
        CloseStage::TakeClosed => if succeeded { CloseStage::AskClose } else { CloseStage::Withdraw },
        CloseStage::AskClose => if succeeded { CloseStage::Await } else { CloseStage::Withdraw },
        CloseStage::Withdraw => CloseStage::Clear { failed: true },
        CloseStage::Await => CloseStage::Finish,
        CloseStage::Finish => CloseStage::Observe,
        CloseStage::Observe => CloseStage::GiveBack { failed: !succeeded },
        CloseStage::GiveBack { failed } => CloseStage::Clear { failed },
        CloseStage::Clear { failed } => if failed { CloseStage::Failed } else { CloseStage::Done },
        CloseStage::Done => CloseStage::Done,
        CloseStage::Failed => CloseStage::Failed,
    }
}

/// [`close_next`] as code.
pub fn close(stage: CloseStage, succeeded: bool) -> (next: CloseStage)
    ensures
        next == close_next(stage, succeeded),
{
    match stage {
        CloseStage::Begin => if succeeded {
            CloseStage::Mark
        } else {
            CloseStage::Failed
        },
        CloseStage::Mark => CloseStage::TakeNative,
        CloseStage::TakeNative => if succeeded {
            CloseStage::TakeClosed
        } else {
            CloseStage::Clear { failed: true }
        },
        CloseStage::TakeClosed => if succeeded {
            CloseStage::AskClose
        } else {
            CloseStage::Withdraw
        },
        CloseStage::AskClose => if succeeded {
            CloseStage::Await
        } else {
            CloseStage::Withdraw
        },
        CloseStage::Withdraw => CloseStage::Clear { failed: true },
        CloseStage::Await => CloseStage::Finish,
        CloseStage::Finish => CloseStage::Observe,
        CloseStage::Observe => CloseStage::GiveBack { failed: !succeeded },
        CloseStage::GiveBack { failed } => CloseStage::Clear { failed },
        CloseStage::Clear { failed } => if failed {
            CloseStage::Failed
        } else {
            CloseStage::Done
        },
        CloseStage::Done => CloseStage::Done,
        CloseStage::Failed => CloseStage::Failed,
    }
}

/// How the operation of a close ends: the window is gone, or whoever would have told
/// is.
pub fn close_terminal(told: bool) -> (terminal: Terminal)
    ensures
        terminal == if told { Terminal::Completed } else { Terminal::Closed },
{
    if told {
        Terminal::Completed
    } else {
        Terminal::Closed
    }
}

/// The stage that a history of outcomes leads to.
pub open spec fn close_after(outcomes: Seq<bool>) -> CloseStage
    decreases outcomes.len(),
{
    if outcomes.len() == 0 {
        CloseStage::Begin
    } else {
        close_next(close_after(outcomes.drop_last()), outcomes.last())
    }
}

/// The resource is given back only after the operation has ended and was looked at, so
/// that nothing else that is bound to it can take its result away.
pub proof fn results_are_read_before_resources_go(outcomes: Seq<bool>, failed: bool)
    requires
        close_after(outcomes) == (CloseStage::GiveBack { failed }),
    ensures
        outcomes.len() == 8,
        close_after(outcomes.take(7)) == CloseStage::Observe,
        close_after(outcomes.take(6)) == CloseStage::Finish,
        failed == !outcomes[7],
{
    lemma_close_history(outcomes);
    let seven = outcomes.drop_last();
    lemma_close_history(seven);
    assert(seven =~= outcomes.take(7));
    assert(seven.drop_last() =~= outcomes.take(6));
    lemma_close_history(outcomes.take(6));
}

proof fn lemma_close_history(outcomes: Seq<bool>)
    ensures
        match close_after(outcomes) {
            CloseStage::Begin => outcomes.len() == 0,
            CloseStage::Mark => outcomes.len() == 1,
            CloseStage::TakeNative => outcomes.len() == 2,
            CloseStage::TakeClosed => outcomes.len() == 3,
            CloseStage::AskClose => outcomes.len() == 4,
            CloseStage::Withdraw => outcomes.len() == 4 || outcomes.len() == 5,
            CloseStage::Await => outcomes.len() == 5,
            CloseStage::Finish => outcomes.len() == 6,
            CloseStage::Observe => outcomes.len() == 7,
            CloseStage::GiveBack { failed } => outcomes.len() == 8,
            _ => outcomes.len() > 0,
        },
    decreases outcomes.len(),
{
    if outcomes.len() > 0 {
        lemma_close_history(outcomes.drop_last());
    }
}

/// A job whose steps all succeed goes through them in order, each once, and is done.
pub proof fn jobs_succeed_step_by_step(job: WebviewJob, outcomes: Seq<bool>)
    requires
        forall|i: int| 0 <= i < outcomes.len() ==> outcomes[i],
    ensures
        job == WebviewJob::Open && outcomes.len() == 0 ==> job_after(
            job,
            outcomes,
        ) == JobStage::Begin,
        job == WebviewJob::Open && outcomes.len() == 1 ==> job_after(
            job,
            outcomes,
        ) == JobStage::Parse,
        job == WebviewJob::Open && outcomes.len() == 2 ==> job_after(
            job,
            outcomes,
        ) == JobStage::OpenNative,
        job == WebviewJob::Open && outcomes.len() == 3 ==> job_after(
            job,
            outcomes,
        ) == JobStage::TakeTerminal,
        job == WebviewJob::Open && outcomes.len() == 4 ==> job_after(
            job,
            outcomes,
        ) == JobStage::Store,
        job == WebviewJob::Open && outcomes.len() == 5 ==> job_after(
            job,
            outcomes,
        ) == JobStage::Watch,
        job == WebviewJob::Open && outcomes.len() == 6 ==> job_after(
            job,
            outcomes,
        ) == JobStage::Publish,
        job == WebviewJob::Open && outcomes.len() >= 7 ==> job_after(
            job,
            outcomes,
        ) == JobStage::Done,
        job == WebviewJob::Load && outcomes.len() == 0 ==> job_after(
            job,
            outcomes,
        ) == JobStage::Begin,
        job == WebviewJob::Load && outcomes.len() == 1 ==> job_after(
            job,
            outcomes,
        ) == JobStage::TakeLoad,
        job == WebviewJob::Load && outcomes.len() == 2 ==> job_after(
            job,
            outcomes,
        ) == JobStage::AwaitLoad,
        job == WebviewJob::Load && outcomes.len() == 3 ==> job_after(
            job,
            outcomes,
        ) == JobStage::FinishLoad,
        job == WebviewJob::Load && outcomes.len() >= 4 ==> job_after(
            job,
            outcomes,
        ) == JobStage::Done,
        job == WebviewJob::Capture && outcomes.len() == 0 ==> job_after(
            job,
            outcomes,
        ) == JobStage::Begin,
        job == WebviewJob::Capture && outcomes.len() == 1 ==> job_after(
            job,
            outcomes,
        ) == JobStage::Capture,
        job == WebviewJob::Capture && outcomes.len() == 2 ==> job_after(
            job,
            outcomes,
        ) == JobStage::AwaitCapture,
        job == WebviewJob::Capture && outcomes.len() >= 3 ==> job_after(
            job,
            outcomes,
        ) == JobStage::Done,
        job == WebviewJob::Close && outcomes.len() == 0 ==> job_after(
            job,
            outcomes,
        ) == JobStage::Begin,
        job == WebviewJob::Close && outcomes.len() == 1 ==> job_after(
            job,
            outcomes,
        ) == JobStage::MarkClosing,
        job == WebviewJob::Close && outcomes.len() == 2 ==> job_after(
            job,
            outcomes,
        ) == JobStage::TakeNative,
        job == WebviewJob::Close && outcomes.len() == 3 ==> job_after(
            job,
            outcomes,
        ) == JobStage::TakeClosed,
        job == WebviewJob::Close && outcomes.len() == 4 ==> job_after(
            job,
            outcomes,
        ) == JobStage::AskClose,
        job == WebviewJob::Close && outcomes.len() == 5 ==> job_after(
            job,
            outcomes,
        ) == JobStage::AwaitClosed,
        job == WebviewJob::Close && outcomes.len() == 6 ==> job_after(
            job,
            outcomes,
        ) == JobStage::FinishClose,
        job == WebviewJob::Close && outcomes.len() == 7 ==> job_after(
            job,
            outcomes,
        ) == JobStage::Revoke,
        job == WebviewJob::Close && outcomes.len() == 8 ==> job_after(job, outcomes) == (
            JobStage::ClearClosing { failed: false }
        ),
        job == WebviewJob::Close && outcomes.len() >= 9 ==> job_after(
            job,
            outcomes,
        ) == JobStage::Done,
    decreases outcomes.len(),
{
    if outcomes.len() > 0 {
        jobs_succeed_step_by_step(job, outcomes.drop_last());
    }
}

/// Opening whose steps all succeed goes through them in order, each once, and is done.
pub proof fn opening_succeeds_step_by_step(outcomes: Seq<bool>)
    requires
        forall|i: int| 0 <= i < outcomes.len() ==> outcomes[i],
    ensures
        outcomes.len() == 0 ==> open_after(outcomes) == OpenStage::Parse,
        outcomes.len() == 1 ==> open_after(outcomes) == OpenStage::Begin,
        outcomes.len() == 2 ==> open_after(outcomes) == OpenStage::OpenNative,
        outcomes.len() == 3 ==> open_after(outcomes) == OpenStage::TakeTerminal,
        outcomes.len() == 4 ==> open_after(outcomes) == OpenStage::Store,
        outcomes.len() == 5 ==> open_after(outcomes) == OpenStage::FinishOpen,
        outcomes.len() == 6 ==> open_after(outcomes) == OpenStage::Watch,
        outcomes.len() == 7 ==> open_after(outcomes) == OpenStage::Observe,
        outcomes.len() == 8 ==> open_after(outcomes) == OpenStage::BeginTerminal,
        outcomes.len() >= 9 ==> open_after(outcomes) == OpenStage::Done,
    decreases outcomes.len(),
{
    if outcomes.len() > 0 {
        opening_succeeds_step_by_step(outcomes.drop_last());
    }
}

/// Closing whose steps all succeed goes through them in order, each once, and is done.
pub proof fn closing_succeeds_step_by_step(outcomes: Seq<bool>)
    requires
        forall|i: int| 0 <= i < outcomes.len() ==> outcomes[i],
    ensures
        outcomes.len() == 0 ==> close_after(outcomes) == CloseStage::Begin,
        outcomes.len() == 1 ==> close_after(outcomes) == CloseStage::Mark,
        outcomes.len() == 2 ==> close_after(outcomes) == CloseStage::TakeNative,
        outcomes.len() == 3 ==> close_after(outcomes) == CloseStage::TakeClosed,
        outcomes.len() == 4 ==> close_after(outcomes) == CloseStage::AskClose,
        outcomes.len() == 5 ==> close_after(outcomes) == CloseStage::Await,
        outcomes.len() == 6 ==> close_after(outcomes) == CloseStage::Finish,
        outcomes.len() == 7 ==> close_after(outcomes) == CloseStage::Observe,
        outcomes.len() == 8 ==> close_after(outcomes) == (CloseStage::GiveBack { failed: false }),
        outcomes.len() == 9 ==> close_after(outcomes) == (CloseStage::Clear { failed: false }),
        outcomes.len() >= 10 ==> close_after(outcomes) == CloseStage::Done,
    decreases outcomes.len(),
{
    if outcomes.len() > 0 {
        closing_succeeds_step_by_step(outcomes.drop_last());
    }
}

/// A capture whose steps all succeed goes through them in order, each once, and is done; one
/// that comes late is finished before its result is looked at.
pub proof fn captures_succeed_step_by_step(events: Seq<CaptureEvent>)
    requires
        forall|i: int| 0 <= i < events.len() ==> events[i] == CaptureEvent::Succeeded,
    ensures
        events.len() == 0 ==> capture_after(events) == CaptureStage::CheckLimits,
        events.len() == 1 ==> capture_after(events) == CaptureStage::Begin,
        events.len() == 2 ==> capture_after(events) == CaptureStage::Ask,
        events.len() == 3 ==> capture_after(events) == CaptureStage::Wait,
        events.len() == 4 ==> capture_after(events) == CaptureStage::Observe,
        events.len() >= 5 ==> capture_after(events) == CaptureStage::Done,
        events.len() == 3 ==> capture_after(events.push(CaptureEvent::Late))
            == CaptureStage::FinishLate,
    decreases events.len(),
{
    assert(events.push(CaptureEvent::Late).drop_last() =~= events);
    if events.len() > 0 {
        captures_succeed_step_by_step(events.drop_last());
    }
}

} // verus!
