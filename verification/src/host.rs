//! Failures of the host as plain values.
use vstd::prelude::*;

verus! {

/// What kind of failure the host reported.
#[derive(Clone, Copy, Debug, PartialEq, Eq, Structural)]
pub enum HostErrorKind {
    NotFound,
    PermissionDenied,
    AlreadyExists,
    BrokenPipe,
    NotConnected,
    InvalidInput,
    InvalidData,
    TimedOut,
    Interrupted,
    Unsupported,
    StorageFull,
    FileTooLarge,
    Other,
}

/// A failure of the host: its kind, the native code behind it where there is
/// one, and a sentence for people.
#[derive(Clone, Debug)]
pub struct HostError {
    pub kind: HostErrorKind,
    pub code: Option<i32>,
    pub message: String,
}

impl HostError {
    /// Whether this failure was raised by the library itself, with the given
    /// kind and sentence and no native code.
    pub open spec fn says(&self, kind: HostErrorKind, message: Seq<char>) -> bool {
        &&& self.kind == kind
        &&& self.code is None
        &&& self.message@ == message
    }

    /// A failure that has no native code.
    pub fn new(kind: HostErrorKind, message: &str) -> (error: Self)
        ensures
            error.says(kind, message@),
    {
        HostError { kind, code: None, message: message.to_owned() }
    }

    /// Whether this failure stands for a native code and nothing more.
    pub open spec fn is_native(&self, kind: HostErrorKind, code: i32) -> bool {
        &&& self.kind == kind
        &&& self.code == Some(code)
        &&& self.message@.len() == 0
    }

    /// A failure known by its native code. The host supplies the sentence.
    pub fn native(kind: HostErrorKind, code: i32) -> (error: Self)
        ensures
            error.is_native(kind, code),
    {
        HostError { kind, code: Some(code), message: String::new() }
    }
}

} // verus!
