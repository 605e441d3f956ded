//! Settings of the diagnostics of asynchronous work.
use vstd::prelude::*;

use crate::strings::{copy_optional, join2};
use crate::symbolize::message::optional_text;

verus! {

/// Where diagnostics are served unless asked otherwise.
pub const DEFAULT_BIND: &'static str = "127.0.0.1:6669";

/// How diagnostics are served and recorded.
#[derive(Clone, Debug, PartialEq, Eq)]
pub struct DiagnosticsConfig {
    bind: String,
    publish_interval_nanos: Option<u64>,
    recording_path: Option<String>,
}

impl DiagnosticsConfig {
    pub closed spec fn spec_bind(&self) -> Seq<char> {
        self.bind@
    }

    pub closed spec fn spec_publish_interval(&self) -> Option<u64> {
        self.publish_interval_nanos
    }

    pub closed spec fn spec_recording_path(&self) -> Option<Seq<char>> {
        optional_text(self.recording_path)
    }

    pub fn new(bind: String) -> (config: Self)
        ensures
            config.spec_bind() == bind@,
            config.spec_publish_interval() is None,
            config.spec_recording_path() is None,
    {
        DiagnosticsConfig { bind, publish_interval_nanos: None, recording_path: None }
    }

    pub fn with_publish_interval(self, nanos: u64) -> (config: Self)
        ensures
            config.spec_bind() == self.spec_bind(),
            config.spec_publish_interval() == Some(nanos),
            config.spec_recording_path() == self.spec_recording_path(),
    {
        DiagnosticsConfig {
            bind: self.bind,
            publish_interval_nanos: Some(nanos),
            recording_path: self.recording_path,
        }
    }

    pub fn with_recording_path(self, path: String) -> (config: Self)
        ensures
            config.spec_bind() == self.spec_bind(),
            config.spec_publish_interval() == self.spec_publish_interval(),
            config.spec_recording_path() == Some(path@),
    {
        DiagnosticsConfig {
            bind: self.bind,
            publish_interval_nanos: self.publish_interval_nanos,
            recording_path: Some(path),
        }
    }

    pub fn bind(&self) -> (bind: &str)
        ensures
            bind@ == self.spec_bind(),
    {
        self.bind.as_str()
    }

    pub fn publish_interval(&self) -> (nanos: Option<u64>)
        ensures
            nanos == self.spec_publish_interval(),
    {
        self.publish_interval_nanos
    }

    pub fn recording_path(&self) -> (path: Option<String>)
        ensures
            optional_text(path) == self.spec_recording_path(),
    {
        copy_optional(&self.recording_path)
    }
}

impl Default for DiagnosticsConfig {
    fn default() -> (config: Self)
        ensures
            config.spec_bind() == "127.0.0.1:6669"@,
            config.spec_publish_interval() is None,
            config.spec_recording_path() is None,
    {
        DiagnosticsConfig::new("127.0.0.1:6669".to_owned())
    }
}

/// Why diagnostics could not be started.
#[derive(Debug)]
pub enum DiagnosticsInstallError {
    /// The place to serve them at is no socket address.
    InvalidBind(String),
    /// The program lacks the instrumentation that they need.
    BackendInstrumentationRequired,
    /// Something else records events already.
    Subscriber(String),
}

impl DiagnosticsInstallError {
    pub open spec fn text(&self) -> Seq<char> {
        match *self {
            DiagnosticsInstallError::InvalidBind(reason) =>
                "invalid async diagnostics bind address: "@ + reason@,
            DiagnosticsInstallError::BackendInstrumentationRequired =>
                "the current async backend requires RUSTFLAGS=\"--cfg tokio_unstable\" for task instrumentation"@,
            DiagnosticsInstallError::Subscriber(reason) =>
                "could not install the async diagnostics subscriber: "@ + reason@,
        }
    }

    /// A sentence for people.
    pub fn message(&self) -> (message: String)
        ensures
            message@ == self.text(),
    {
        match self {
            DiagnosticsInstallError::InvalidBind(reason) => join2(
                "invalid async diagnostics bind address: ",
                reason.as_str(),
            ),
            DiagnosticsInstallError::BackendInstrumentationRequired =>
                "the current async backend requires RUSTFLAGS=\"--cfg tokio_unstable\" for task instrumentation".to_owned(),
            DiagnosticsInstallError::Subscriber(reason) => join2(
                "could not install the async diagnostics subscriber: ",
                reason.as_str(),
            ),
        }
    }
}

} // verus!
