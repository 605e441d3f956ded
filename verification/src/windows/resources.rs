//! Running out of things.
use vstd::prelude::*;

use crate::host::{HostError, HostErrorKind};

verus! {

pub const WSAEMFILE: i32 = 10024;

pub const ERROR_TOO_MANY_OPEN_FILES: i32 = 4;

pub const ERROR_NO_SYSTEM_RESOURCES: i32 = 1450;

pub const ERROR_HANDLE_DISK_FULL: i32 = 39;

pub const ERROR_DISK_FULL: i32 = 112;

/// Whether a failure says that no more handles can be had.
pub open spec fn is_fd_exhaustion(error: &HostError) -> bool {
    error.code == Some(WSAEMFILE) || error.code == Some(ERROR_TOO_MANY_OPEN_FILES) || error.code
        == Some(ERROR_NO_SYSTEM_RESOURCES)
}

pub fn signals_fd_exhaustion(error: &HostError) -> (signals: bool)
    ensures
        signals == is_fd_exhaustion(error),
{
    match error.code {
        Some(code) => code == WSAEMFILE || code == ERROR_TOO_MANY_OPEN_FILES || code
            == ERROR_NO_SYSTEM_RESOURCES,
        None => false,
    }
}

/// Whether a failure says that the volume is full.
pub open spec fn is_storage_exhaustion(error: &HostError) -> bool {
    error.kind == HostErrorKind::StorageFull || error.code == Some(ERROR_HANDLE_DISK_FULL)
        || error.code == Some(ERROR_DISK_FULL)
}

pub fn signals_storage_exhaustion(error: &HostError) -> (signals: bool)
    ensures
        signals == is_storage_exhaustion(error),
{
    if error.kind == HostErrorKind::StorageFull {
        return true;
    }
    match error.code {
        Some(code) => code == ERROR_HANDLE_DISK_FULL || code == ERROR_DISK_FULL,
        None => false,
    }
}

/// The failure of a host that has no more handles. It is recognised as such.
pub fn fd_exhaustion_error() -> (error: HostError)
    ensures
        error.code == Some(WSAEMFILE),
        is_fd_exhaustion(&error),
        !is_storage_exhaustion(&error),
{
    HostError::native(HostErrorKind::Other, WSAEMFILE)
}

/// The failure of a host whose volume is full. It is recognised as such.
pub fn storage_exhaustion_error() -> (error: HostError)
    ensures
        error.code == Some(ERROR_DISK_FULL),
        error.kind == HostErrorKind::StorageFull,
        is_storage_exhaustion(&error),
        !is_fd_exhaustion(&error),
{
    HostError::native(HostErrorKind::StorageFull, ERROR_DISK_FULL)
}

/// How many files a volume can hold.
#[derive(Clone, Copy, Debug, PartialEq, Eq, Structural)]
pub struct InodeCapacity {
    pub total: u64,
    pub available: u64,
}

/// Volumes here do not run out of files before they run out of space.
pub fn inode_capacity() -> (capacity: Result<Option<InodeCapacity>, HostError>)
    ensures
        capacity is Ok,
        capacity->Ok_0 is None,
{
    Ok(None)
}

/// What the host says about the space on a volume.
#[derive(Clone, Copy, Debug, PartialEq, Eq, Structural)]
pub struct DiskSpace {
    pub available_to_caller: u64,
    pub total: u64,
}

/// All the space on a volume.
pub fn total_space(probed: Result<DiskSpace, HostError>) -> (bytes: Result<u64, HostError>)
    ensures
        match (probed, bytes) {
            (Ok(space), Ok(bytes)) => bytes == space.total,
            (Err(error), Err(reported)) => reported == error,
            _ => false,
        },
{
    match probed {
        Ok(space) => Ok(space.total),
        Err(error) => Err(error),
    }
}

/// The space that the caller may still use.
pub fn available_space(probed: Result<DiskSpace, HostError>) -> (bytes: Result<u64, HostError>)
    ensures
        match (probed, bytes) {
            (Ok(space), Ok(bytes)) => bytes == space.available_to_caller,
            (Err(error), Err(reported)) => reported == error,
            _ => false,
        },
{
    match probed {
        Ok(space) => Ok(space.available_to_caller),
        Err(error) => Err(error),
    }
}

/// Running out of handles and running out of room are told by their codes, never by each other's.
pub proof fn exhaustions_are_told_apart(error: &HostError)
    ensures
        is_fd_exhaustion(error) <==> error.code == Some(10024i32) || error.code == Some(4i32)
            || error.code == Some(1450i32),
        error.kind != HostErrorKind::StorageFull ==> (is_storage_exhaustion(error) <==> error.code
            == Some(39i32) || error.code == Some(112i32)),
        error.kind == HostErrorKind::StorageFull ==> is_storage_exhaustion(error),
        error.kind != HostErrorKind::StorageFull ==> !(is_fd_exhaustion(error)
            && is_storage_exhaustion(error)),
{
}

} // verus!
