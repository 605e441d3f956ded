//! Commands on pseudo-terminals.
use vstd::prelude::*;

use crate::host::{HostError, HostErrorKind};

verus! {

/// A command, and what it is to find. Its texts are of the host's own kind and pass
/// through as they are.
#[derive(Clone, Debug)]
pub struct PtyCommand<T> {
    pub program: T,
    pub arguments: Vec<T>,
    pub cwd: Option<T>,
    pub environment: Option<Vec<(T, T)>>,
}

impl<T> PtyCommand<T> {
    pub fn new(program: T) -> (command: Self)
        ensures
            command.program == program,
            command.arguments@.len() == 0,
            command.cwd is None,
            command.environment is None,
    {
        PtyCommand { program, arguments: Vec::new(), cwd: None, environment: None }
    }

    /// The program and its arguments, and what is left of the command.
    pub fn into_argv(self) -> (parts: (Vec<T>, Option<T>, Option<Vec<(T, T)>>))
        ensures
            parts.0@ == seq![self.program] + self.arguments@,
            parts.1 == self.cwd,
            parts.2 == self.environment,
    {
        let mut arguments = self.arguments;
        let mut argv: Vec<T> = Vec::new();
        argv.push(self.program);
        argv.append(&mut arguments);
        assert(argv@ =~= seq![self.program] + self.arguments@);
        (argv, self.cwd, self.environment)
    }
}

/// What is left of a bounded write.
#[derive(Debug)]
pub enum PtyWrite {
    /// So many bytes were taken.
    Written(usize),
    /// The host cannot bound a write: write everything, and report all of it.
    WriteAll,
    Fail(HostError),
}

/// What a bounded write came to.
pub fn write_available(attempt: Result<usize, HostError>) -> (write: PtyWrite)
    ensures
        match (attempt, write) {
            (Ok(count), PtyWrite::Written(written)) => written == count,
            (Err(error), PtyWrite::WriteAll) => error.kind == HostErrorKind::Unsupported,
            (Err(error), PtyWrite::Fail(reported)) => error.kind != HostErrorKind::Unsupported
                && reported == error,
            _ => false,
        },
{
    match attempt {
        Ok(count) => PtyWrite::Written(count),
        Err(error) => if error.kind == HostErrorKind::Unsupported {
            PtyWrite::WriteAll
        } else {
            PtyWrite::Fail(error)
        },
    }
}

/// What is done, in this order, with a session that is dropped.
#[derive(Clone, Copy, Debug, PartialEq, Eq, Structural)]
pub enum TeardownStep {
    KillGroup,
    KillChild,
    ReapChild,
    ReleaseTerminal,
    Done,
}

/// The step after another. No failure holds a teardown up.
pub fn next_teardown(step: TeardownStep) -> (next: TeardownStep)
    ensures
        next == match step {
            TeardownStep::KillGroup => TeardownStep::KillChild,
            TeardownStep::KillChild => TeardownStep::ReapChild,
            TeardownStep::ReapChild => TeardownStep::ReleaseTerminal,
            TeardownStep::ReleaseTerminal => TeardownStep::Done,
            TeardownStep::Done => TeardownStep::Done,
        },
{
    match step {
        TeardownStep::KillGroup => TeardownStep::KillChild,
        TeardownStep::KillChild => TeardownStep::ReapChild,
        TeardownStep::ReapChild => TeardownStep::ReleaseTerminal,
        TeardownStep::ReleaseTerminal => TeardownStep::Done,
        TeardownStep::Done => TeardownStep::Done,
    }
}

} // verus!
