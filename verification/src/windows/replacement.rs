//! Putting files and directories in the place of others.
use vstd::prelude::*;

use crate::host::{HostError, HostErrorKind};
use crate::strings::{decimal, decimal_text, join2, join3, lemma_decimal_injective};

verus! {

pub const ERROR_ACCESS_DENIED: i32 = 5;

pub const ERROR_SHARING_VIOLATION: i32 = 32;

pub const ERROR_LOCK_VIOLATION: i32 = 33;

/// Flags of a replacing move: take the place of what is there, and do not return
/// before the change is on disk.
pub const REPLACE_FLAGS: u32 = 9;

/// Whether another process has the file open, by native code alone.
pub open spec fn is_share_error(error: &HostError) -> bool {
    error.code == Some(ERROR_ACCESS_DENIED) || error.code == Some(ERROR_SHARING_VIOLATION)
}

pub fn is_transient_share_error(error: &HostError) -> (is: bool)
    ensures
        is == is_share_error(error),
{
    match error.code {
        Some(code) => code == ERROR_ACCESS_DENIED || code == ERROR_SHARING_VIOLATION,
        None => false,
    }
}

/// Whether a failure may pass once a scanner has let go of the file.
pub open spec fn may_pass(error: &HostError) -> bool {
    error.kind == HostErrorKind::PermissionDenied || is_share_error(error)
}

pub fn is_av_scan_transient(error: &HostError) -> (is: bool)
    ensures
        is == may_pass(error),
{
    error.kind == HostErrorKind::PermissionDenied || is_transient_share_error(error)
}

/// Whether a range of the file is locked.
pub fn is_lock_contention(error: &HostError) -> (is: bool)
    ensures
        is == (error.code == Some(ERROR_LOCK_VIOLATION)),
{
    match error.code {
        Some(code) => code == ERROR_LOCK_VIOLATION,
        None => false,
    }
}

/// What counts as another process having the file open is always worth another
/// try.
pub proof fn share_errors_may_pass(error: &HostError)
    requires
        is_share_error(error),
    ensures
        may_pass(error),
{
}

// ---------------------------------------------------------------------------
// Trying again
// ---------------------------------------------------------------------------

/// How long to wait before each further attempt, in milliseconds.
pub open spec fn retry_delays() -> Seq<u64> {
    seq![50, 100, 250, 500]
}

/// What to do after an attempt.
#[derive(Clone, Copy, Debug, PartialEq, Eq, Structural)]
pub enum RetryStep {
    /// Take what the attempt came to.
    Stop,
    /// Wait, then try again.
    Wait { milliseconds: u64 },
}

/// A run of attempts.
#[derive(Clone, Copy, Debug, PartialEq, Eq, Structural)]
pub struct RetrySchedule {
    waits: usize,
}

impl RetrySchedule {
    /// How often it has been waited.
    pub closed spec fn spec_waits(&self) -> nat {
        self.waits as nat
    }

    pub open spec fn wf(&self) -> bool {
        self.spec_waits() <= retry_delays().len()
    }

    pub fn new() -> (schedule: Self)
        ensures
            schedule.wf(),
            schedule.spec_waits() == 0,
    {
        RetrySchedule { waits: 0 }
    }

    /// Takes the outcome of an attempt, a failure or none. Success, a failure
    /// that will not pass, and the last attempt end the run.
    pub fn after(&mut self, failure: Option<&HostError>) -> (step: RetryStep)
        requires
            old(self).wf(),
        ensures
            final(self).wf(),
            ({
                let waits = old(self).spec_waits();
                let again = waits < retry_delays().len() && match failure {
                    Some(error) => may_pass(error),
                    None => false,
                };
                if again {
                    step == RetryStep::Wait { milliseconds: retry_delays()[waits as int] }
                        && final(self).spec_waits() == waits + 1
                } else {
                    step == RetryStep::Stop && final(self).spec_waits() == waits
                }
            }),
    {
        let transient = match failure {
            Some(error) => is_av_scan_transient(error),
            None => false,
        };
        if !transient || self.waits >= 4 {
            return RetryStep::Stop;
        }
        let milliseconds: u64 = if self.waits == 0 {
            50
        } else if self.waits == 1 {
            100
        } else if self.waits == 2 {
            250
        } else {
            500
        };
        self.waits = self.waits + 1;
        RetryStep::Wait { milliseconds }
    }
}

/// How many attempts a run makes whose failures would all pass.
pub open spec fn attempts_until_stop(waits: nat) -> nat
    decreases retry_delays().len() - waits,
{
    if waits < retry_delays().len() { 1 + attempts_until_stop(waits + 1) } else { 1 }
}

/// A run makes five attempts at most.
pub proof fn retries_are_bounded()
    ensures
        attempts_until_stop(0) == 5,
{
    reveal_with_fuel(attempts_until_stop, 6);
}

// ---------------------------------------------------------------------------
// Installing over something that is there
// ---------------------------------------------------------------------------

/// Where an installation stands.
#[derive(Clone, Copy, Debug, PartialEq, Eq, Structural)]
pub enum InstallStage {
    /// Move what was staged to a place that is empty.
    Place,
    /// Move what is there to the backup.
    BackUp,
    /// Move what was staged to its place.
    Install,
    /// Move the backup to its place again; whether that succeeds changes nothing
    /// in what is reported.
    RollBack,
    /// Remove the backup.
    RemoveBackup,
    Done,
    /// Report the failure of that stage.
    Failed { at: InstallFailure },
}

/// Which failure an installation reports.
#[derive(Clone, Copy, Debug, PartialEq, Eq, Structural)]
pub enum InstallFailure {
    BackUp,
    Install,
    RemoveBackup,
}

/// The stage after the work of `stage` was tried.
pub open spec fn install_next(stage: InstallStage, succeeded: bool) -> InstallStage {
    match stage {
        InstallStage::Place => if succeeded {
            InstallStage::Done
        } else {
            InstallStage::Failed { at: InstallFailure::Install }
        },
        InstallStage::BackUp => if succeeded {
            InstallStage::Install
        } else {
            InstallStage::Failed { at: InstallFailure::BackUp }
        },
        InstallStage::Install => if succeeded {
            InstallStage::RemoveBackup
        } else {
            InstallStage::RollBack
        },
        InstallStage::RollBack => InstallStage::Failed { at: InstallFailure::Install },
        InstallStage::RemoveBackup => if succeeded {
            InstallStage::Done
        } else {
            InstallStage::Failed { at: InstallFailure::RemoveBackup }
        },
        other => other,
    }
}

impl InstallStage {
    pub fn next(self, succeeded: bool) -> (stage: InstallStage)
        ensures
            stage == install_next(self, succeeded),
    {
        match self {
            InstallStage::Place => if succeeded {
                InstallStage::Done
            } else {
                InstallStage::Failed { at: InstallFailure::Install }
            },
            InstallStage::BackUp => if succeeded {
                InstallStage::Install
            } else {
                InstallStage::Failed { at: InstallFailure::BackUp }
            },
            InstallStage::Install => if succeeded {
                InstallStage::RemoveBackup
            } else {
                InstallStage::RollBack
            },
            InstallStage::RollBack => InstallStage::Failed { at: InstallFailure::Install },
            InstallStage::RemoveBackup => if succeeded {
                InstallStage::Done
            } else {
                InstallStage::Failed { at: InstallFailure::RemoveBackup }
            },
            other => other,
        }
    }
}

/// What an installation has the host do.
#[derive(Debug)]
pub enum InstallAction {
    Rename { from: String, to: String },
    Remove { path: String },
    Nothing,
}

/// What to do at a stage.
pub fn install_action(stage: InstallStage, staged: &str, requested: &str, backup: &str) -> (action:
    InstallAction)
    ensures
        match (stage, action) {
            (InstallStage::Place, InstallAction::Rename { from, to }) => from@ == staged@ && to@
                == requested@,
            (InstallStage::BackUp, InstallAction::Rename { from, to }) => from@ == requested@ && to@
                == backup@,
            (InstallStage::Install, InstallAction::Rename { from, to }) => from@ == staged@ && to@
                == requested@,
            (InstallStage::RollBack, InstallAction::Rename { from, to }) => from@ == backup@ && to@
                == requested@,
            (InstallStage::RemoveBackup, InstallAction::Remove { path }) => path@ == backup@,
            (InstallStage::Done, InstallAction::Nothing) => true,
            (InstallStage::Failed { at }, InstallAction::Nothing) => true,
            _ => false,
        },
{
    match stage {
        InstallStage::Place => InstallAction::Rename {
            from: staged.to_owned(),
            to: requested.to_owned(),
        },
        InstallStage::BackUp => InstallAction::Rename {
            from: requested.to_owned(),
            to: backup.to_owned(),
        },
        InstallStage::Install => InstallAction::Rename {
            from: staged.to_owned(),
            to: requested.to_owned(),
        },
        InstallStage::RollBack => InstallAction::Rename {
            from: backup.to_owned(),
            to: requested.to_owned(),
        },
        InstallStage::RemoveBackup => InstallAction::Remove { path: backup.to_owned() },
        InstallStage::Done => InstallAction::Nothing,
        InstallStage::Failed { at: _ } => InstallAction::Nothing,
    }
}

/// Where an installation begins: only what is there needs a backup.
pub fn install_directory(requested_exists: bool) -> (stage: InstallStage)
    ensures
        stage == if requested_exists { InstallStage::BackUp } else { InstallStage::Place },
{
    if requested_exists {
        InstallStage::BackUp
    } else {
        InstallStage::Place
    }
}

/// The name of a backup, beside what it holds: of this process, and of this
/// installation in it.
pub open spec fn backup_named(process: nat, number: nat) -> Seq<char> {
    ".zccache-directory-backup-"@ + decimal(process) + "-"@ + decimal(number)
}

pub fn backup_name(process: u32, number: u64) -> (name: String)
    ensures
        name@ == backup_named(process as nat, number as nat),
{
    let front = join2(".zccache-directory-backup-", decimal_text(process as u64).as_str());
    join3(front.as_str(), "-", decimal_text(number).as_str())
}

/// Installations of one process never share a backup.
pub proof fn backups_do_not_collide(process: nat, first: nat, second: nat)
    requires
        backup_named(process, first) == backup_named(process, second),
    ensures
        first == second,
{
    let front = ".zccache-directory-backup-"@ + decimal(process) + "-"@;
    assert(backup_named(process, first).skip(front.len() as int) =~= decimal(first));
    assert(backup_named(process, second).skip(front.len() as int) =~= decimal(second));
    lemma_decimal_injective(first, second);
}

/// The stage that a history of outcomes leads to, where something is there.
pub open spec fn install_after(outcomes: Seq<bool>) -> InstallStage
    decreases outcomes.len(),
{
    if outcomes.len() == 0 {
        InstallStage::BackUp
    } else {
        install_next(install_after(outcomes.drop_last()), outcomes.last())
    }
}

proof fn lemma_install_history(outcomes: Seq<bool>)
    ensures
        match install_after(outcomes) {
            InstallStage::Place => false,
            InstallStage::BackUp => outcomes.len() == 0,
            InstallStage::Install => outcomes.len() == 1 && outcomes[0],
            InstallStage::RollBack => outcomes.len() == 2 && outcomes[0] && !outcomes[1],
            InstallStage::RemoveBackup => outcomes.len() == 2 && outcomes[0] && outcomes[1],
            InstallStage::Done => outcomes.len() >= 3 && outcomes[0] && outcomes[1] && outcomes[2],
            InstallStage::Failed { at: InstallFailure::BackUp } => outcomes.len() >= 1
                && !outcomes[0],
            InstallStage::Failed { at: InstallFailure::Install } => outcomes.len() >= 3
                && outcomes[0] && !outcomes[1],
            InstallStage::Failed { at: InstallFailure::RemoveBackup } => outcomes.len() >= 3
                && outcomes[0] && outcomes[1] && !outcomes[2],
        },
    decreases outcomes.len(),
{
    if outcomes.len() > 0 {
        let before = outcomes.drop_last();
        lemma_install_history(before);
        assert forall|i: int| 0 <= i < before.len() implies #[trigger] outcomes[i] == before[i] by {
        }
    }
}

/// The backup is removed only once what was staged is in place; a failed
/// installation puts the backup back, and reports its own failure whether or not
/// that worked.
pub proof fn backups_outlive_failed_installs(outcomes: Seq<bool>)
    ensures
        install_after(outcomes) == InstallStage::RemoveBackup ==> outcomes == seq![true, true],
        install_after(outcomes) == (InstallStage::Failed { at: InstallFailure::Install })
            ==> outcomes.len() >= 3 && outcomes[0] && !outcomes[1],
        install_after(outcomes) == InstallStage::Done ==> outcomes.len() >= 3 && outcomes[0]
            && outcomes[1] && outcomes[2],
{
    lemma_install_history(outcomes);
    if install_after(outcomes) == InstallStage::RemoveBackup {
        assert(outcomes =~= seq![true, true]);
    }
}

/// What the removal of a directory came to: one that is not there is removed.
pub fn remove_directory_if_present(removed: Result<(), HostError>) -> (settled: Result<
    (),
    HostError,
>)
    ensures
        match (removed, settled) {
            (Ok(()), Ok(())) => true,
            (Err(error), Ok(())) => error.kind == HostErrorKind::NotFound,
            (Err(error), Err(reported)) => error.kind != HostErrorKind::NotFound && reported
                == error,
            _ => false,
        },
{
    match removed {
        Ok(()) => Ok(()),
        Err(error) => if error.kind == HostErrorKind::NotFound {
            Ok(())
        } else {
            Err(error)
        },
    }
}

/// Where a replacement that may delete stands.
#[derive(Clone, Copy, Debug, PartialEq, Eq, Structural)]
pub enum ReplaceStage {
    /// Replace in one step.
    Replace,
    /// Delete what is there.
    Delete,
    /// Rename into the empty place.
    Rename,
    Done,
    /// Report the last failure.
    Failed,
}

/// The stage after the work of `stage` was tried. Only where something is in the
/// way is it deleted.
pub fn replace_with_delete_fallback(
    stage: ReplaceStage,
    succeeded: bool,
    destination_exists: bool,
) -> (next: ReplaceStage)
    ensures
        next == match stage {
            ReplaceStage::Replace => if succeeded {
                ReplaceStage::Done
            } else if destination_exists {
                ReplaceStage::Delete
            } else {
                ReplaceStage::Failed
            },
            ReplaceStage::Delete => if succeeded {
                ReplaceStage::Rename
            } else {
                ReplaceStage::Failed
            },
            ReplaceStage::Rename => if succeeded {
                ReplaceStage::Done
            } else {
                ReplaceStage::Failed
            },
            ReplaceStage::Done => ReplaceStage::Done,
            ReplaceStage::Failed => ReplaceStage::Failed,
        },
{
    match stage {
        ReplaceStage::Replace => if succeeded {
            ReplaceStage::Done
        } else if destination_exists {
            ReplaceStage::Delete
        } else {
            ReplaceStage::Failed
        },
        ReplaceStage::Delete => if succeeded {
            ReplaceStage::Rename
        } else {
            ReplaceStage::Failed
        },
        ReplaceStage::Rename => if succeeded {
            ReplaceStage::Done
        } else {
            ReplaceStage::Failed
        },
        ReplaceStage::Done => ReplaceStage::Done,
        ReplaceStage::Failed => ReplaceStage::Failed,
    }
}

/// The flags of a move: a new generation never takes the place of anything.
pub fn rename_generation() -> (flags: u32)
    ensures
        flags == 0,
{
    0
}

/// The flags of a move that takes the place of what is there.
pub fn atomic_replace() -> (flags: u32)
    ensures
        flags == REPLACE_FLAGS,
{
    REPLACE_FLAGS
}

/// Two codes mean that someone else has the file open, and each further wait is longer than the
/// one before it.
pub proof fn waits_grow(error: &HostError, first: int, second: int)
    requires
        0 <= first < second < retry_delays().len(),
    ensures
        is_share_error(error) <==> error.code == Some(5i32) || error.code == Some(32i32),
        50 <= retry_delays()[first] < retry_delays()[second] <= 500,
        retry_delays().len() == 4,
{
}

/// A replacement whose steps all succeed backs up, installs, and then removes the backup; one
/// that cannot install moves the backup to its place again before it fails.
pub proof fn replacements_go_step_by_step(outcomes: Seq<bool>)
    ensures
        outcomes.len() == 0 ==> install_after(outcomes) == InstallStage::BackUp,
        outcomes.len() >= 1 && !outcomes[0] ==> install_after(outcomes) == (InstallStage::Failed {
            at: InstallFailure::BackUp,
        }),
        outcomes.len() == 1 && outcomes[0] ==> install_after(outcomes) == InstallStage::Install,
        outcomes.len() == 2 && outcomes[0] && outcomes[1] ==> install_after(outcomes)
            == InstallStage::RemoveBackup,
        outcomes.len() == 2 && outcomes[0] && !outcomes[1] ==> install_after(outcomes)
            == InstallStage::RollBack,
        outcomes.len() >= 3 && outcomes[0] && !outcomes[1] ==> install_after(outcomes) == (
        InstallStage::Failed { at: InstallFailure::Install }),
        outcomes.len() >= 3 && outcomes[0] && outcomes[1] && outcomes[2] ==> install_after(outcomes)
            == InstallStage::Done,
        outcomes.len() >= 3 && outcomes[0] && outcomes[1] && !outcomes[2] ==> install_after(
            outcomes,
        ) == (InstallStage::Failed { at: InstallFailure::RemoveBackup }),
    decreases outcomes.len(),
{
    if outcomes.len() > 0 {
        let less = outcomes.drop_last();
        replacements_go_step_by_step(less);
        assert forall|i: int| 0 <= i < less.len() implies less[i] == outcomes[i] by {}
    }
}

/// An empty place is simply filled.
pub proof fn empty_places_are_filled_at_once(succeeded: bool)
    ensures
        install_next(InstallStage::Place, succeeded) == InstallStage::Done <==> succeeded,
        !succeeded ==> install_next(InstallStage::Place, succeeded) == (InstallStage::Failed {
            at: InstallFailure::Install,
        }),
{
}

/// Rolling back undoes the backup, move for move, and what is removed at the end is the backup.
pub proof fn rolling_back_undoes_the_backup(
    staged: &str,
    requested: &str,
    backup: &str,
    away: InstallAction,
    placed: InstallAction,
    back: InstallAction,
    removed: InstallAction,
)
    requires
        call_ensures(install_action, (InstallStage::BackUp, staged, requested, backup), away),
        call_ensures(install_action, (InstallStage::Install, staged, requested, backup), placed),
        call_ensures(install_action, (InstallStage::RollBack, staged, requested, backup), back),
        call_ensures(
            install_action,
            (InstallStage::RemoveBackup, staged, requested, backup),
            removed,
        ),
    ensures
        match (away, placed, back, removed) {
            (
                InstallAction::Rename { from: old_place, to: safe },
                InstallAction::Rename { from: fresh, to: place },
                InstallAction::Rename { from: kept, to: again },
                InstallAction::Remove { path },
            ) => {
                &&& kept@ == safe@
                &&& again@ == old_place@
                &&& place@ == old_place@
                &&& fresh@ == staged@
                &&& old_place@ == requested@
                &&& path@ == safe@
            },
            _ => false,
        },
{
}

/// A file is deleted only where replacing it failed and it is there, and is then replaced by a
/// plain move or not at all.
pub proof fn deletions_come_last(
    stage: ReplaceStage,
    succeeded: bool,
    destination_exists: bool,
    next: ReplaceStage,
)
    requires
        call_ensures(replace_with_delete_fallback, (stage, succeeded, destination_exists), next),
    ensures
        next == ReplaceStage::Delete <==> stage == ReplaceStage::Replace && !succeeded
            && destination_exists,
        next == ReplaceStage::Rename <==> stage == ReplaceStage::Delete && succeeded,
        next == ReplaceStage::Done <==> stage == ReplaceStage::Done || succeeded && (stage
            == ReplaceStage::Replace || stage == ReplaceStage::Rename),
        next != ReplaceStage::Replace,
{
}

} // verus!
