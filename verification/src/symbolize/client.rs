//! The crash-isolated symbolization worker: where it is, and what its answer
//! amounts to.
use vstd::prelude::*;
use vstd::string::{StrSliceExecFns, StringExecFns};

use crate::host::HostError;
use crate::paths::{
    a_joined_name_is_the_last_component, ends_in_a_name, is_plain_name, joined, last_name, parent_path, path_file_name,
    path_join, path_parent,
};
use crate::strings::{
    join2, join3, kept_text_fits, lossy_text, optional_code, optional_code_text, trim_text, trimmed, truncate_text,
    utf8_len, utf8_lossy, utf8_prefix,
};
use crate::windows::path_laws::{a_file_is_renamed_in_its_directory, is_drive_directory, is_plain_file_name};
use crate::windows::paths::{windows_rename, windows_renamed};

use super::codec::RECURSION_LIMIT;
use super::message::{decode_fault, decoded, WireModel};
use super::wire::{SymbolReport, WireError};

verus! {

/// The environment variable that may name the worker executable.
pub const SYMBOLIZER_WORKER_ENV: &'static str = "KERNAL_API_SYMBOLIZER";

/// How many bytes of a failed worker's standard error are kept.
pub const MAX_WORKER_STDERR_BYTES: usize = 4096;

/// The name of the worker executable.
pub open spec fn worker_name(windows: bool) -> Seq<char> {
    if windows { "kernal-symbolize.exe"@ } else { "kernal-symbolize"@ }
}

/// The worker beside the running program.
pub open spec fn worker_beside(program: Seq<char>, windows: bool) -> Seq<char> {
    if windows {
        windows_renamed(program, worker_name(windows))
    } else {
        posix_worker_beside(program)
    }
}

pub open spec fn posix_worker_beside(program: Seq<char>) -> Seq<char> {
    match (last_name(program), parent_path(program)) {
        (Some(_), Some(parent)) => joined(parent, worker_name(false)),
        _ => joined(program, worker_name(false)),
    }
}

/// The worker that a host is configured with: what the environment names, unless
/// that is empty, else the worker beside the running program.
pub fn default_worker_path(
    configured: Option<String>,
    program: Result<String, HostError>,
    windows: bool,
) -> (path: Result<String, HostError>)
    ensures
        match configured {
            Some(configured) if configured@.len() > 0 => path is Ok && path->Ok_0@ == configured@,
            _ => match (program, path) {
                (Ok(program), Ok(path)) => path@ == worker_beside(program@, windows),
                (Err(error), Err(reported)) => reported == error,
                _ => false,
            },
        },
{
    if let Some(configured) = configured {
        if configured.as_str().unicode_len() > 0 {
            return Ok(configured);
        }
    }
    let program = match program {
        Ok(program) => program,
        Err(error) => {
            return Err(error);
        },
    };
    if windows {
        return Ok(windows_rename(program.as_str(), "kernal-symbolize.exe"));
    }
    let name = "kernal-symbolize";
    if path_file_name(program.as_str()).is_some() {
        if let Some(parent) = path_parent(program.as_str()) {
            return Ok(path_join(parent.as_str(), name));
        }
    }
    Ok(path_join(program.as_str(), name))
}

/// A configured off-process symbolizer.
#[derive(Clone, Debug)]
pub struct SymbolizerWorker {
    executable: String,
}

impl SymbolizerWorker {
    /// The worker executable.
    pub closed spec fn spec_executable(&self) -> Seq<char> {
        self.executable@
    }

    /// A worker at an explicit place.
    pub fn new(executable: String) -> (worker: Self)
        ensures
            worker.spec_executable() == executable@,
    {
        SymbolizerWorker { executable }
    }

    /// The worker that [`default_worker_path`] finds.
    pub fn discover(
        configured: Option<String>,
        program: Result<String, HostError>,
        windows: bool,
    ) -> (worker: Result<Self, WorkerError>)
        ensures
            match configured {
                Some(configured) if configured@.len() > 0 => worker is Ok
                    && worker->Ok_0.spec_executable() == configured@,
                _ => match (program, worker) {
                    (Ok(program), Ok(worker)) => worker.spec_executable() == worker_beside(
                        program@,
                        windows,
                    ),
                    (Err(error), Err(reported)) => reported == WorkerError::Io(error),
                    _ => false,
                },
            },
    {
        match default_worker_path(configured, program, windows) {
            Ok(path) => Ok(SymbolizerWorker::new(path)),
            Err(error) => Err(WorkerError::Io(error)),
        }
    }

    pub fn executable(&self) -> (path: &str)
        ensures
            path@ == self.spec_executable(),
    {
        self.executable.as_str()
    }
}

/// Failure to launch, talk to, or understand the worker.
#[derive(Debug)]
pub enum WorkerError {
    /// The worker could not be located, or talking to it failed.
    Io(HostError),
    /// The worker executable could not be started.
    Spawn { executable: String, source: HostError },
    /// The worker started without the piped standard input that was asked for.
    MissingStdin,
    /// The report is not a message of the shared contract.
    Wire(WireError),
    /// The isolated parser failed; the calling process remains healthy.
    Failed { status: Option<i32>, stderr: String },
}

impl WorkerError {
    pub open spec fn text(&self) -> Seq<char> {
        match *self {
            WorkerError::Io(error) => "cannot determine the symbolizer worker path: "@
                + error.message@,
            WorkerError::Spawn { executable, source } => "cannot start symbolizer worker "@
                + executable@ + ": "@ + source.message@,
            WorkerError::MissingStdin => "symbolizer worker started without piped stdin"@,
            WorkerError::Wire(error) => "symbolizer wire payload is invalid: "@ + error.text(),
            WorkerError::Failed { status, stderr } => "symbolizer worker failed with status "@
                + optional_code(status) + ": "@ + stderr@,
        }
    }

    /// A sentence for people.
    pub fn message(&self) -> (message: String)
        ensures
            message@ == self.text(),
    {
        match self {
            WorkerError::Io(error) => join2(
                "cannot determine the symbolizer worker path: ",
                error.message.as_str(),
            ),
            WorkerError::Spawn { executable, source } => {
                let mut text = join3("cannot start symbolizer worker ", executable.as_str(), ": ");
                text.append(source.message.as_str());
                text
            },
            WorkerError::MissingStdin => "symbolizer worker started without piped stdin".to_owned(),
            WorkerError::Wire(error) => join2(
                "symbolizer wire payload is invalid: ",
                error.message().as_str(),
            ),
            WorkerError::Failed { status, stderr } => {
                let mut text = join3(
                    "symbolizer worker failed with status ",
                    optional_code_text(*status).as_str(),
                    ": ",
                );
                text.append(stderr.as_str());
                text
            },
        }
    }
}

/// What a finished worker's output amounts to. Of what a failed worker said, a
/// bounded part is kept.
pub fn read_worker_output(
    success: bool,
    status: Option<i32>,
    stdout: &[u8],
    stderr: &[u8],
) -> (report: Result<SymbolReport, WorkerError>)
    ensures
        match report {
            Ok(report) => success && decoded::<SymbolReport>(stdout@, RECURSION_LIMIT as nat)
                == Some(report.model()),
            Err(WorkerError::Failed { status: reported, stderr: text }) => !success && reported
                == status && text@ == utf8_prefix(
                trimmed(utf8_lossy(stderr@)),
                MAX_WORKER_STDERR_BYTES as nat,
            ) && utf8_len(text@) <= MAX_WORKER_STDERR_BYTES,
            Err(WorkerError::Wire(error)) => success && decoded::<SymbolReport>(
                stdout@,
                RECURSION_LIMIT as nat,
            ) is None && decode_fault::<SymbolReport>(stdout@, RECURSION_LIMIT as nat) == Some(
                error.spec_fault(),
            ),
            Err(_) => false,
        },
{
    if !success {
        let text = trim_text(lossy_text(stderr).as_str());
        proof {
            kept_text_fits(text@, MAX_WORKER_STDERR_BYTES as nat);
        }
        return Err(
            WorkerError::Failed {
                status,
                stderr: truncate_text(text.as_str(), MAX_WORKER_STDERR_BYTES),
            },
        );
    }
    match SymbolReport::decode_wire(stdout) {
        Ok(report) => Ok(report),
        Err(error) => Err(WorkerError::Wire(error)),
    }
}

/// The worker is looked for in the directory that its client stands in, whatever the client is
/// called.
pub proof fn workers_stand_beside_their_client(directory: Seq<char>, name: Seq<char>)
    requires
        is_plain_name(name),
        ends_in_a_name(directory),
    ensures
        worker_beside(directory + seq!['/'] + name, false) == directory + "/kernal-symbolize"@,
        worker_beside(seq!['/'] + name, false) == "/kernal-symbolize"@,
        worker_beside(name, false) == "kernal-symbolize"@,
{
    reveal_strlit("kernal-symbolize");
    reveal_strlit("/kernal-symbolize");
    assert(name[0] != '/') by {
        assert(name.contains(name[0]));
    }
    a_joined_name_is_the_last_component(directory, name);
    a_joined_name_is_the_last_component(seq!['/'], name);
    a_joined_name_is_the_last_component(Seq::empty(), name);
    assert(joined(directory, name) =~= directory + seq!['/'] + name);
    assert(joined(seq!['/'], name) =~= seq!['/'] + name);
    assert(joined(Seq::empty(), name) =~= name);
    assert(worker_beside(directory + seq!['/'] + name, false) =~= directory
        + "/kernal-symbolize"@);
    assert(worker_beside(seq!['/'] + name, false) =~= "/kernal-symbolize"@);
    assert(worker_beside(name, false) =~= "kernal-symbolize"@);
}

/// The same on a Windows drive, whichever separator stands before the client's name.
pub proof fn workers_stand_beside_their_client_on_a_drive(
    directory: Seq<char>,
    separator: char,
    name: Seq<char>,
)
    requires
        is_drive_directory(directory),
        is_plain_file_name(name),
        separator == '\\' || separator == '/',
    ensures
        worker_beside(directory + seq![separator] + name, true) == directory
            + "\\kernal-symbolize.exe"@,
{
    reveal_strlit("kernal-symbolize.exe");
    reveal_strlit("\\kernal-symbolize.exe");
    a_file_is_renamed_in_its_directory(directory, separator, name, worker_name(true));
    assert(worker_beside(directory + seq![separator] + name, true) =~= directory
        + "\\kernal-symbolize.exe"@);
}

/// A worker that was configured is taken whatever else is known; an empty setting counts as none,
/// and what is discovered runs what would be taken.
pub proof fn configured_workers_come_first(
    configured: Option<String>,
    program: Result<String, HostError>,
    windows: bool,
    path: Result<String, HostError>,
    worker: Result<SymbolizerWorker, WorkerError>,
)
    requires
        call_ensures(default_worker_path, (configured, program, windows), path),
        call_ensures(SymbolizerWorker::discover, (configured, program, windows), worker),
    ensures
        path is Ok == worker is Ok,
        path is Ok ==> worker->Ok_0.spec_executable() == path->Ok_0@,
        configured is Some && configured->Some_0@.len() > 0 ==> path is Ok && path->Ok_0@
            == configured->Some_0@,
        (configured is None || configured->Some_0@.len() == 0) && program is Err ==> path is Err
            && path->Err_0 == program->Err_0,
{
}

/// A worker's answer is read only where it succeeded; where it did not, its code is told and no
/// more than four kibibytes of what it said.
pub proof fn failed_workers_are_quoted(
    success: bool,
    status: Option<i32>,
    stdout: &[u8],
    stderr: &[u8],
    report: Result<SymbolReport, WorkerError>,
)
    requires
        call_ensures(read_worker_output, (success, status, stdout, stderr), report),
    ensures
        report is Ok ==> success && decoded::<SymbolReport>(stdout@, 100) == Some(
            report->Ok_0.model(),
        ),
        success && decoded::<SymbolReport>(stdout@, 100) is Some ==> report is Ok,
        success && report is Err ==> report->Err_0 is Wire,
        !success ==> match report {
            Err(WorkerError::Failed { status: told, stderr: text }) => told == status && utf8_len(
                text@,
            ) <= 4096,
            _ => false,
        },
{
}

} // verus!
