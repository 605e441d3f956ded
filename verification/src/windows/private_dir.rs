//! Making and keeping directories private.
use vstd::prelude::*;
use vstd::string::StringExecFns;

use crate::host::{HostError, HostErrorKind};
use crate::strings::{join2, join3, text_list};
use crate::windows::security::{is_owner_only, keeps_others_out};

verus! {

/// What became of a directory that was to be private.
#[derive(Clone, Copy, Debug, PartialEq, Eq, Structural)]
pub enum OwnerPrivateDirectoryOutcome {
    AlreadyPrivate,
    Hardened,
}

/// Whether a directory is private to its owner: its list inherits nothing, the
/// owner is the current user, and the list is the expected one byte for byte.
pub fn owner_private_directory(
    protected: bool,
    owner_sid: &Vec<u8>,
    current_sid: &Vec<u8>,
    actual_dacl: &Vec<u8>,
    expected_dacl: &Vec<u8>,
) -> (private: bool)
    ensures
        private == (protected && owner_sid@ == current_sid@ && actual_dacl@ == expected_dacl@),
{
    protected && same_bytes(owner_sid, current_sid) && same_bytes(actual_dacl, expected_dacl)
}

fn same_bytes(first: &Vec<u8>, second: &Vec<u8>) -> (same: bool)
    ensures
        same == (first@ == second@),
{
    if first.len() != second.len() {
        return false;
    }
    for at in 0..first.len()
        invariant
            first@.len() == second@.len(),
            forall|i: int| 0 <= i < at ==> first@[i] == second@[i],
    {
        if first[at] != second[at] {
            assert(first@[at as int] != second@[at as int]);
            return false;
        }
    }
    assert(first@ =~= second@);
    true
}

/// Whether a directory has to be hardened: unless it is known to be private.
pub fn needs_hardening(private: &Result<bool, HostError>) -> (needs: bool)
    ensures
        needs == match *private {
            Ok(private) => !private,
            Err(_) => true,
        },
{
    match private {
        Ok(private) => !*private,
        Err(_) => true,
    }
}

/// What hardening came to, by a second look.
pub fn hardening_outcome(path: &str, private_after: bool) -> (outcome: Result<
    OwnerPrivateDirectoryOutcome,
    HostError,
>)
    ensures
        match outcome {
            Ok(outcome) => private_after && outcome == OwnerPrivateDirectoryOutcome::Hardened,
            Err(error) => !private_after && error.says(
                HostErrorKind::PermissionDenied,
                "private-directory permissions were not applied to "@ + path@,
            ),
        },
{
    if private_after {
        Ok(OwnerPrivateDirectoryOutcome::Hardened)
    } else {
        let message = join2("private-directory permissions were not applied to ", path);
        Err(HostError::new(HostErrorKind::PermissionDenied, message.as_str()))
    }
}

/// What making a directory private came to. `before` is the first look, which may
/// fail; `applied` whether the list could be set; `after` the second look. Nothing
/// is set on a directory that is private already.
pub fn ensure_owner_private_directory(
    path: &str,
    before: Result<bool, HostError>,
    applied: Result<(), HostError>,
    after: Result<bool, HostError>,
) -> (outcome: Result<OwnerPrivateDirectoryOutcome, HostError>)
    ensures
        match outcome {
            Ok(OwnerPrivateDirectoryOutcome::AlreadyPrivate) => before == Ok::<bool, HostError>(
                true,
            ),
            Ok(OwnerPrivateDirectoryOutcome::Hardened) => before != Ok::<bool, HostError>(true)
                && applied is Ok && after == Ok::<bool, HostError>(true),
            Err(error) => before != Ok::<bool, HostError>(true) && match (applied, after) {
                (Err(failure), _) => error == failure,
                (Ok(()), Err(failure)) => error == failure,
                (Ok(()), Ok(private)) => !private && error.says(
                    HostErrorKind::PermissionDenied,
                    "private-directory permissions were not applied to "@ + path@,
                ),
            },
        },
{
    if !needs_hardening(&before) {
        return Ok(OwnerPrivateDirectoryOutcome::AlreadyPrivate);
    }
    match applied {
        Ok(()) => {},
        Err(error) => {
            return Err(error);
        },
    }
    match after {
        Ok(private) => hardening_outcome(path, private),
        Err(error) => Err(error),
    }
}

/// The longest account identifier that is believed.
pub const MAX_SID_BYTES: usize = 1024;

/// Whether the owner of an object can be read: it has one, and of a length that is
/// believed.
pub fn check_owner_sid(valid: bool, length: usize) -> (checked: Result<(), HostError>)
    ensures
        match checked {
            Ok(()) => valid && 0 < length <= MAX_SID_BYTES,
            Err(error) => if !valid {
                error.says(
                    HostErrorKind::InvalidData,
                    "security descriptor has no valid owner SID"@,
                )
            } else {
                !(0 < length <= MAX_SID_BYTES) && error.says(
                    HostErrorKind::InvalidData,
                    "implausible security descriptor owner SID length"@,
                )
            },
        },
{
    if !valid {
        return Err(
            HostError::new(
                HostErrorKind::InvalidData,
                "security descriptor has no valid owner SID",
            ),
        );
    }
    if length == 0 || length > MAX_SID_BYTES {
        return Err(
            HostError::new(
                HostErrorKind::InvalidData,
                "implausible security descriptor owner SID length",
            ),
        );
    }
    Ok(())
}

/// How many bytes the header of a list takes.
pub const ACL_HEADER_BYTES: usize = 8;

/// Whether a list can be read: it holds at least its header.
pub fn check_dacl_length(length: usize) -> (checked: Result<(), HostError>)
    ensures
        match checked {
            Ok(()) => length >= ACL_HEADER_BYTES,
            Err(error) => length < ACL_HEADER_BYTES && error.says(
                HostErrorKind::InvalidData,
                "DACL byte length is smaller than its header"@,
            ),
        },
{
    if length < ACL_HEADER_BYTES {
        return Err(
            HostError::new(
                HostErrorKind::InvalidData,
                "DACL byte length is smaller than its header",
            ),
        );
    }
    Ok(())
}

/// Where the update of a directory's list stands.
#[derive(Clone, Copy, Debug, PartialEq, Eq, Structural)]
pub enum DaclUpdateStage {
    /// Open the directory with what every owner may do, and look at the owner.
    LookAtOwner,
    /// Open it again, with the right to change the owner, and look again.
    LookAgain,
    /// Make the user the owner.
    TakeOwnership,
    /// Set the list.
    SetList,
    Done,
    Failed,
}

/// The stage after the work of `stage` was tried. `owned` is what a look found. A
/// right that ordinary owners lack is asked for only where it is needed.
pub open spec fn dacl_update_next(
    stage: DaclUpdateStage,
    succeeded: bool,
    owned: bool,
) -> DaclUpdateStage {
    if stage == DaclUpdateStage::Done || stage == DaclUpdateStage::Failed {
        stage
    } else if !succeeded {
        DaclUpdateStage::Failed
    } else {
        match stage {
            DaclUpdateStage::LookAtOwner => if owned {
                DaclUpdateStage::SetList
            } else {
                DaclUpdateStage::LookAgain
            },
            DaclUpdateStage::LookAgain => if owned {
                DaclUpdateStage::SetList
            } else {
                DaclUpdateStage::TakeOwnership
            },
            DaclUpdateStage::TakeOwnership => DaclUpdateStage::SetList,
            _ => DaclUpdateStage::Done,
        }
    }
}

/// [`dacl_update_next`] as code.
pub fn apply_dacl_sddl(stage: DaclUpdateStage, succeeded: bool, owned: bool) -> (next:
    DaclUpdateStage)
    ensures
        next == dacl_update_next(stage, succeeded, owned),
{
    match stage {
        DaclUpdateStage::Done => DaclUpdateStage::Done,
        DaclUpdateStage::Failed => DaclUpdateStage::Failed,
        _ => if !succeeded {
            DaclUpdateStage::Failed
        } else {
            match stage {
                DaclUpdateStage::LookAtOwner => if owned {
                    DaclUpdateStage::SetList
                } else {
                    DaclUpdateStage::LookAgain
                },
                DaclUpdateStage::LookAgain => if owned {
                    DaclUpdateStage::SetList
                } else {
                    DaclUpdateStage::TakeOwnership
                },
                DaclUpdateStage::TakeOwnership => DaclUpdateStage::SetList,
                _ => DaclUpdateStage::Done,
            }
        },
    }
}

/// The owner is changed only right after a look that found another one.
pub proof fn ownership_is_taken_only_where_needed(
    stage: DaclUpdateStage,
    succeeded: bool,
    owned: bool,
)
    requires
        stage != DaclUpdateStage::TakeOwnership,
        dacl_update_next(stage, succeeded, owned) == DaclUpdateStage::TakeOwnership,
    ensures
        stage == DaclUpdateStage::LookAgain,
        succeeded,
        !owned,
{
}

/// Whether the account that this process runs as can be read.
pub fn check_current_sid(valid: bool, length: usize) -> (checked: Result<(), HostError>)
    ensures
        match checked {
            Ok(()) => valid && 0 < length <= MAX_SID_BYTES,
            Err(error) => if !valid {
                error.says(HostErrorKind::InvalidData, "invalid current-user SID"@)
            } else {
                !(0 < length <= MAX_SID_BYTES) && error.says(
                    HostErrorKind::InvalidData,
                    "implausible current-user SID length"@,
                )
            },
        },
{
    if !valid {
        return Err(HostError::new(HostErrorKind::InvalidData, "invalid current-user SID"));
    }
    if length == 0 || length > MAX_SID_BYTES {
        return Err(
            HostError::new(HostErrorKind::InvalidData, "implausible current-user SID length"),
        );
    }
    Ok(())
}

/// Whether a directory has to be tightened, by its present list.
pub fn needs_tightening(current: &str, user_sid: &str, aliases: &Vec<String>) -> (needs: bool)
    ensures
        needs == !keeps_others_out(current@, user_sid@, text_list(aliases@)),
{
    !is_owner_only(current, user_sid, aliases)
}

/// What tightening came to, by the list that is read back.
pub open spec fn is_tightened(
    path: Seq<char>,
    after: Seq<char>,
    user: Seq<char>,
    aliases: Seq<Seq<char>>,
    outcome: Result<bool, HostError>,
) -> bool {
    match outcome {
        Ok(tightened) => tightened && keeps_others_out(after, user, aliases),
        Err(error) => !keeps_others_out(after, user, aliases) && error.says(
            HostErrorKind::PermissionDenied,
            path + " is writable by other local users (DACL "@ + after
                + ") and could not be tightened"@,
        ),
    }
}

fn check_tightened(path: &str, after: &str, user_sid: &str, aliases: &Vec<String>) -> (outcome:
    Result<bool, HostError>)
    ensures
        is_tightened(path@, after@, user_sid@, text_list(aliases@), outcome),
{
    if is_owner_only(after, user_sid, aliases) {
        return Ok(true);
    }
    let mut message = join3(path, " is writable by other local users (DACL ", after);
    message.append(") and could not be tightened");
    Err(HostError::new(HostErrorKind::PermissionDenied, message.as_str()))
}

/// Keeps other users from a directory whose present list is given. `true` means that
/// something was changed. `tighten` is called only where the list lets others in, and
/// gives the list that is read back, with the spellings in it that mean the user.
pub fn ensure_dir_private<F: FnOnce() -> Result<(String, Vec<String>), HostError>>(
    path: &str,
    user_sid: &str,
    current: &str,
    aliases: &Vec<String>,
    tighten: F,
) -> (outcome: Result<bool, HostError>)
    requires
        !keeps_others_out(current@, user_sid@, text_list(aliases@)) ==> tighten.requires(()),
    ensures
        if keeps_others_out(current@, user_sid@, text_list(aliases@)) {
            outcome is Ok && !outcome->Ok_0
        } else {
            exists|read: Result<(String, Vec<String>), HostError>|
                {
                    &&& #[trigger] tighten.ensures((), read)
                    &&& match read {
                        Ok((after, known)) => is_tightened(
                            path@,
                            after@,
                            user_sid@,
                            text_list(known@),
                            outcome,
                        ),
                        Err(error) => outcome is Err && outcome->Err_0 == error,
                    }
                }
        },
{
    if !needs_tightening(current, user_sid, aliases) {
        return Ok(false);
    }
    let read = tighten();
    let ghost given = read;
    let outcome = match read {
        Ok((after, known)) => check_tightened(path, after.as_str(), user_sid, &known),
        Err(error) => Err(error),
    };
    assert(tighten.ensures((), given));
    outcome
}

/// A directory on the way to one that is wanted.
#[derive(Clone, Debug)]
pub struct Ancestor {
    pub path: String,
    pub is_dir: bool,
}

/// How many directories have to be made: those before the first that is there.
pub open spec fn missing_count(lineage: Seq<Ancestor>) -> nat
    decreases lineage.len(),
{
    if lineage.len() == 0 || lineage[0].is_dir {
        0
    } else {
        1 + missing_count(lineage.drop_first())
    }
}

proof fn lemma_missing_count_bound(lineage: Seq<Ancestor>)
    ensures
        missing_count(lineage) <= lineage.len(),
    decreases lineage.len(),
{
    if lineage.len() > 0 && !lineage[0].is_dir {
        lemma_missing_count_bound(lineage.drop_first());
    }
}

/// The directories to make, outermost first. `lineage` starts with the wanted
/// directory and goes up to the last parent that has a name.
pub fn create_dir_all_private(lineage: &Vec<Ancestor>) -> (paths: Vec<String>)
    ensures
        paths@.len() == missing_count(lineage@),
        paths@.len() <= lineage@.len(),
        forall|i: int|
            0 <= i < paths@.len() ==> (#[trigger] paths@[i])@ == lineage@[paths@.len() - 1
                - i].path@,
{
    let mut count: usize = 0;
    proof {
        assert(lineage@.skip(0) =~= lineage@);
        lemma_missing_count_bound(lineage@);
    }
    while count < lineage.len() && !lineage[count].is_dir
        invariant
            count <= lineage@.len(),
            missing_count(lineage@) == count + missing_count(lineage@.skip(count as int)),
        decreases lineage@.len() - count,
    {
        assert(lineage@.skip(count as int).drop_first() =~= lineage@.skip(count + 1));
        count += 1;
    }
    let mut paths: Vec<String> = Vec::new();
    let mut at: usize = count;
    while at > 0
        invariant
            at <= count <= lineage@.len(),
            paths@.len() == count - at,
            forall|i: int|
                0 <= i < paths@.len() ==> (#[trigger] paths@[i])@ == lineage@[count - 1 - i].path@,
        decreases at,
    {
        at -= 1;
        paths.push(lineage[at].path.clone());
    }
    paths
}

/// What making one directory came to: it is no failure if someone else made it.
pub fn settle_creation(created: Result<(), HostError>, is_dir_now: bool) -> (settled: Result<
    (),
    HostError,
>)
    ensures
        match (created, settled) {
            (Ok(()), Ok(())) => true,
            (Err(error), Ok(())) => error.kind == HostErrorKind::AlreadyExists && is_dir_now,
            (Err(error), Err(reported)) => reported == error && !(error.kind
                == HostErrorKind::AlreadyExists && is_dir_now),
            _ => false,
        },
{
    match created {
        Ok(()) => Ok(()),
        Err(error) => if error.kind == HostErrorKind::AlreadyExists && is_dir_now {
            Ok(())
        } else {
            Err(error)
        },
    }
}

/// What is missing is all that comes before the first directory that is there.
pub proof fn missing_directories_come_first(lineage: Seq<Ancestor>)
    ensures
        missing_count(lineage) <= lineage.len(),
        forall|i: int| 0 <= i < missing_count(lineage) ==> !(#[trigger] lineage[i]).is_dir,
        missing_count(lineage) < lineage.len() ==> lineage[missing_count(lineage) as int].is_dir,
    decreases lineage.len(),
{
    if lineage.len() > 0 && !lineage[0].is_dir {
        let rest = lineage.drop_first();
        missing_directories_come_first(rest);
        assert forall|i: int| 0 <= i < missing_count(lineage) implies !(
        #[trigger] lineage[i]).is_dir by {
            if i > 0 {
                assert(!rest[i - 1].is_dir);
            }
        }
    }
}

/// The list is set at once where the owner is the right one, after a second look where it is so
/// then, and otherwise only after ownership was taken; and a failure at any stage ends it.
pub proof fn lists_are_set_by_owners(stage: DaclUpdateStage, owned: bool)
    ensures
        dacl_update_next(DaclUpdateStage::LookAtOwner, true, true) == DaclUpdateStage::SetList,
        dacl_update_next(DaclUpdateStage::LookAtOwner, true, false) == DaclUpdateStage::LookAgain,
        dacl_update_next(DaclUpdateStage::LookAgain, true, true) == DaclUpdateStage::SetList,
        dacl_update_next(DaclUpdateStage::LookAgain, true, false)
            == DaclUpdateStage::TakeOwnership,
        dacl_update_next(DaclUpdateStage::TakeOwnership, true, owned) == DaclUpdateStage::SetList,
        dacl_update_next(DaclUpdateStage::SetList, true, owned) == DaclUpdateStage::Done,
        stage != DaclUpdateStage::Done ==> dacl_update_next(stage, false, owned)
            == DaclUpdateStage::Failed,
        dacl_update_next(DaclUpdateStage::Done, false, owned) == DaclUpdateStage::Done,
{
}

/// A directory counts as private only where it was found so, before or after; and what failed in
/// between is told.
pub proof fn private_directories_were_found_so(
    path: &str,
    before: Result<bool, HostError>,
    applied: Result<(), HostError>,
    after: Result<bool, HostError>,
    outcome: Result<OwnerPrivateDirectoryOutcome, HostError>,
)
    requires
        call_ensures(ensure_owner_private_directory, (path, before, applied, after), outcome),
    ensures
        before == Ok::<bool, HostError>(true) ==> outcome == Ok::<
            OwnerPrivateDirectoryOutcome,
            HostError,
        >(OwnerPrivateDirectoryOutcome::AlreadyPrivate),
        before != Ok::<bool, HostError>(true) ==> (outcome is Ok <==> applied is Ok && after == Ok::<
            bool,
            HostError,
        >(true)),
        before != Ok::<bool, HostError>(true) && applied is Err ==> outcome is Err && outcome->Err_0
            == applied->Err_0,
{
}

/// The directories that are missing are made from the outermost inwards.
pub proof fn directories_are_made_from_the_outside(
    lineage: &Vec<Ancestor>,
    paths: Vec<String>,
    at: int,
)
    requires
        call_ensures(create_dir_all_private, (lineage,), paths),
        0 <= at < paths@.len(),
    ensures
        paths@.len() <= lineage@.len(),
        paths@[at]@ == lineage@[paths@.len() - 1 - at].path@,
        !lineage@[paths@.len() - 1 - at].is_dir,
        paths@.len() < lineage@.len() ==> lineage@[paths@.len() as int].is_dir,
{
    missing_directories_come_first(lineage@);
}

} // verus!
