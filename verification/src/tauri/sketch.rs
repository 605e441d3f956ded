//! Jobs that a guest submits on its webviews.
use vstd::prelude::*;

use crate::tauri::hub::{HubError, Terminal};
use crate::tauri::webview::{is_mapped_native, map_native, NativeWebviewError, WebviewError};

verus! {

/// How many jobs may be under way.
pub const MAX_JOBS: usize = 128;

/// What a guest can ask for.
#[derive(Clone, Copy, Debug, PartialEq, Eq, Structural)]
pub enum WebviewJob {
    Open,
    Load,
    Capture,
    Close,
}

/// Whether a job may start while `running` others are under way.
pub fn admit_job(running: usize, closing: bool) -> (admitted: Result<(), HubError>)
    ensures
        admitted == if closing {
            Err::<(), HubError>(HubError::Closed)
        } else if running >= MAX_JOBS {
            Err(HubError::Quota)
        } else {
            Ok(())
        },
{
    if closing {
        return Err(HubError::Closed);
    }
    if running >= MAX_JOBS {
        return Err(HubError::Quota);
    }
    Ok(())
}

/// How many jobs are still under way.
pub open spec fn unfinished(finished: Seq<bool>) -> nat
    decreases finished.len(),
{
    if finished.len() == 0 {
        0
    } else {
        unfinished(finished.drop_last()) + if finished.last() { 0nat } else { 1nat }
    }
}

pub fn count_unfinished(finished: &Vec<bool>) -> (count: usize)
    ensures
        count == unfinished(finished@),
{
    let mut count: usize = 0;
    for at in 0..finished.len()
        invariant
            count == unfinished(finished@.take(at as int)),
            count <= at,
    {
        assert(finished@.take(at + 1).drop_last() =~= finished@.take(at as int));
        if !finished[at] {
            count += 1;
        }
    }
    assert(finished@.take(finished@.len() as int) =~= finished@);
    count
}

/// Whether a submission makes sense: it names a known job and leaves the unused
/// argument empty. That is checked before there is room for it.
pub fn check_submission(
    job: Option<WebviewJob>,
    unused: u64,
    running: usize,
    closing: bool,
) -> (checked: Result<WebviewJob, HubError>)
    ensures
        checked == if unused != 0 {
            Err::<WebviewJob, HubError>(HubError::Invalid)
        } else if closing {
            Err(HubError::Closed)
        } else if running >= MAX_JOBS {
            Err(HubError::Quota)
        } else {
            match job {
                Some(job) => Ok(job),
                None => Err(HubError::Invalid),
            }
        },
{
    if unused != 0 {
        return Err(HubError::Invalid);
    }
    match admit_job(running, closing) {
        Ok(()) => {},
        Err(error) => {
            return Err(error);
        },
    }
    match job {
        Some(job) => Ok(job),
        None => Err(HubError::Invalid),
    }
}

/// Whether the view goes with a job that failed: only a capture leaves it.
pub fn revokes_view(job: WebviewJob) -> (revokes: bool)
    ensures
        revokes == (job != WebviewJob::Capture),
{
    job != WebviewJob::Capture
}

/// How a job ends that failed.
pub open spec fn failed_terminal(error: WebviewError) -> Terminal {
    match error {
        WebviewError::Cancelled => Terminal::Cancelled,
        WebviewError::TimedOut => Terminal::TimedOut,
        WebviewError::WindowClosed => Terminal::Closed,
        _ => Terminal::Rejected,
    }
}

pub fn job_terminal(error: &WebviewError) -> (terminal: Terminal)
    ensures
        terminal == failed_terminal(*error),
{
    match error {
        WebviewError::Cancelled => Terminal::Cancelled,
        WebviewError::TimedOut => Terminal::TimedOut,
        WebviewError::WindowClosed => Terminal::Closed,
        _ => Terminal::Rejected,
    }
}

/// How a job ends that was dropped before it finished.
pub fn dropped_terminal(panicking: bool) -> (terminal: Terminal)
    ensures
        terminal == if panicking { Terminal::Trapped } else { Terminal::Cancelled },
{
    if panicking {
        Terminal::Trapped
    } else {
        Terminal::Cancelled
    }
}

/// No failure ends a job as a success.
pub proof fn failed_jobs_never_complete(error: WebviewError)
    ensures
        failed_terminal(error) != Terminal::Completed,
{
}

/// What a job's waiting brought, in the order in which it is looked at.
#[derive(Debug)]
pub enum JobWait {
    Cancelled,
    TimedOut,
    /// Whoever would have told is gone.
    Abandoned,
    Failed(NativeWebviewError),
    Done,
}

pub fn settle_wait(wait: JobWait) -> (settled: Result<(), WebviewError>)
    ensures
        match (wait, settled) {
            (JobWait::Cancelled, Err(error)) => error == WebviewError::Cancelled,
            (JobWait::TimedOut, Err(error)) => error == WebviewError::TimedOut,
            (JobWait::Abandoned, Err(error)) => error == WebviewError::WindowClosed,
            (JobWait::Failed(failure), Err(error)) => is_mapped_native(failure, error),
            (JobWait::Done, Ok(())) => true,
            _ => false,
        },
{
    match wait {
        JobWait::Cancelled => Err(WebviewError::Cancelled),
        JobWait::TimedOut => Err(WebviewError::TimedOut),
        JobWait::Abandoned => Err(WebviewError::WindowClosed),
        JobWait::Failed(failure) => Err(map_native(failure)),
        JobWait::Done => Ok(()),
    }
}

/// How long a shutdown waits for what is under way, in milliseconds.
pub const SHUTDOWN_WAIT_MS: u64 = 30_000;

/// How long it sleeps between two looks, in milliseconds ([`DrainStep::Wait`]).
pub const SHUTDOWN_POLL_MS: u64 = 5;

/// What a look at what is under way leads to.
#[derive(Clone, Copy, Debug, PartialEq, Eq, Structural)]
pub enum DrainStep {
    /// Nothing is left.
    Drained,
    /// Sleep a little and look again.
    Wait,
    /// It took too long.
    Late,
}

/// Whether a shutdown goes on waiting: until every window is gone and no capture and no
/// opening is under way.
pub fn drain_step(windows: usize, captures: usize, opens: usize, elapsed_ms: u64) -> (step:
    DrainStep)
    ensures
        step == if windows == 0 && captures == 0 && opens == 0 {
            DrainStep::Drained
        } else if elapsed_ms >= SHUTDOWN_WAIT_MS {
            DrainStep::Late
        } else {
            DrainStep::Wait
        },
{
    if windows == 0 && captures == 0 && opens == 0 {
        DrainStep::Drained
    } else if elapsed_ms >= SHUTDOWN_WAIT_MS {
        DrainStep::Late
    } else {
        DrainStep::Wait
    }
}

/// What a shutdown came to. Jobs that panicked are reported only after
/// everything has been cleaned up.
pub fn shutdown_outcome(
    close_failure: Option<NativeWebviewError>,
    drained: bool,
    job_panicked: bool,
) -> (outcome: Result<(), WebviewError>)
    ensures
        match outcome {
            Ok(()) => close_failure is None && drained && !job_panicked,
            Err(error) => match close_failure {
                Some(failure) => is_mapped_native(failure, error),
                None => if !drained {
                    error == WebviewError::TimedOut
                } else {
                    job_panicked && error.is_host_failure("native job panicked"@)
                },
            },
        },
{
    if let Some(failure) = close_failure {
        return Err(map_native(failure));
    }
    if !drained {
        return Err(WebviewError::TimedOut);
    }
    if job_panicked {
        return Err(WebviewError::HostFailure("native job panicked".to_owned()));
    }
    Ok(())
}

/// Work that failed ends as what it failed of.
pub proof fn failures_keep_their_end(error: WebviewError)
    ensures
        failed_terminal(error) == Terminal::Cancelled <==> error == WebviewError::Cancelled,
        failed_terminal(error) == Terminal::TimedOut <==> error == WebviewError::TimedOut,
        failed_terminal(error) == Terminal::Closed <==> error == WebviewError::WindowClosed,
        failed_terminal(error) == Terminal::Rejected <==> error != WebviewError::Cancelled && error
            != WebviewError::TimedOut && error != WebviewError::WindowClosed,
{
}

/// What is unfinished is counted one by one.
pub proof fn unfinished_work_is_counted(first: Seq<bool>, second: Seq<bool>)
    ensures
        unfinished(first + second) == unfinished(first) + unfinished(second),
        unfinished(seq![true]) == 0,
        unfinished(seq![false]) == 1,
    decreases second.len(),
{
    assert(seq![true].drop_last() =~= Seq::empty());
    assert(seq![false].drop_last() =~= Seq::empty());
    reveal_with_fuel(unfinished, 2);
    if second.len() == 0 {
        assert(first + second =~= first);
    } else {
        unfinished_work_is_counted(first, second.drop_last());
        assert((first + second).drop_last() =~= first + second.drop_last());
        assert((first + second).last() == second.last());
    }
}

/// A job is admitted while fewer than the most are running and nothing is closing, and one that
/// is submitted only where it could also be admitted and is told in full.
pub proof fn submitted_jobs_are_admitted(
    job: Option<WebviewJob>,
    unused: u64,
    running: usize,
    closing: bool,
    admitted: Result<(), HubError>,
    checked: Result<WebviewJob, HubError>,
)
    requires
        call_ensures(admit_job, (running, closing), admitted),
        call_ensures(check_submission, (job, unused, running, closing), checked),
    ensures
        admitted is Ok <==> running < 128 && !closing,
        closing ==> admitted == Err::<(), HubError>(HubError::Closed),
        checked is Ok <==> admitted is Ok && unused == 0 && job is Some,
        checked is Ok ==> job == Some(checked->Ok_0),
        unused == 0 && admitted is Err ==> checked is Err && checked->Err_0 == admitted->Err_0,
        unused != 0 ==> checked == Err::<WebviewJob, HubError>(HubError::Invalid),
{
}

/// Shutting down waits for all that is left, though no longer than half a minute.
pub proof fn shutdown_waits_for_all(
    windows: usize,
    captures: usize,
    opens: usize,
    elapsed_ms: u64,
    step: DrainStep,
)
    requires
        call_ensures(drain_step, (windows, captures, opens, elapsed_ms), step),
    ensures
        step == DrainStep::Drained <==> windows + captures + opens == 0,
        step == DrainStep::Late ==> elapsed_ms >= 30_000,
        step == DrainStep::Wait ==> elapsed_ms < 30_000,
{
}

} // verus!
