//! Local endpoints that only their owner can reach.
//!
//! Named pipes are the transport here. Sockets at a path exist in name only, so
//! that callers can be written once for every host.
use vstd::prelude::*;

use crate::host::{HostError, HostErrorKind};
use crate::strings::has_char;

verus! {

/// A protected list that gives the owner of a pipe and the system everything.
pub const OWNER_ONLY_SDDL: &'static str = "D:P(A;;GA;;;OW)(A;;GA;;;SY)";

/// Refuses an endpoint that the host would cut short.
pub fn reject_nul(endpoint: &str) -> (checked: Result<(), HostError>)
    ensures
        match checked {
            Ok(()) => !endpoint@.contains('\0'),
            Err(error) => endpoint@.contains('\0') && error.says(
                HostErrorKind::InvalidInput,
                "pipe endpoint contains NUL"@,
            ),
        },
{
    if has_char(endpoint, '\0') {
        return Err(HostError::new(HostErrorKind::InvalidInput, "pipe endpoint contains NUL"));
    }
    Ok(())
}

/// Pipes leave nothing behind that would have to be removed.
pub fn retire_socket_endpoint(path: &str) -> (retired: Result<(), HostError>)
    ensures
        retired is Ok,
{
    Ok(())
}

/// The failure of everything that needs a socket at a path.
pub fn sockets_unsupported() -> (error: HostError)
    ensures
        error.says(
            HostErrorKind::Unsupported,
            "owner-only pathname sockets are not this host's local IPC transport"@,
        ),
{
    HostError::new(
        HostErrorKind::Unsupported,
        "owner-only pathname sockets are not this host's local IPC transport",
    )
}

/// A listening socket. There is no value of this type.
#[derive(Debug)]
pub struct LocalSocketListener {
    never: std::convert::Infallible,
}

impl LocalSocketListener {
    pub fn bind_owner_only(path: &str) -> (bound: Result<Self, HostError>)
        ensures
            bound is Err,
            bound->Err_0.says(
                HostErrorKind::Unsupported,
                "owner-only pathname sockets are not this host's local IPC transport"@,
            ),
    {
        Err(sockets_unsupported())
    }
}

/// A connected socket. There is no value of this type.
#[derive(Debug)]
pub struct LocalSocketStream {
    never: std::convert::Infallible,
}

impl LocalSocketStream {
    pub fn connect(path: &str) -> (connected: Result<Self, HostError>)
        ensures
            connected is Err,
            connected->Err_0.says(
                HostErrorKind::Unsupported,
                "owner-only pathname sockets are not this host's local IPC transport"@,
            ),
    {
        Err(sockets_unsupported())
    }
}

} // verus!
