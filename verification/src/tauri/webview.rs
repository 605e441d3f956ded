//! Opening external webviews.
use vstd::prelude::*;

use crate::strings::{chars_of, join2, same_text};
use crate::tauri::hub::{HubError, Terminal};

verus! {

// ---------------------------------------------------------------------------
// Addresses
// ---------------------------------------------------------------------------

/// What an address is made of.
#[derive(Clone, Debug)]
pub struct UrlParts {
    /// The address in its normal form.
    pub text: String,
    pub scheme: String,
    pub host: Option<String>,
    pub cannot_be_a_base: bool,
    pub username: String,
    pub has_password: bool,
}

/// Mathematical counterpart of [`UrlParts`].
pub struct UrlModel {
    pub text: Seq<char>,
    pub scheme: Seq<char>,
    pub host: Option<Seq<char>>,
    pub cannot_be_a_base: bool,
    pub username: Seq<char>,
    pub has_password: bool,
}

impl View for UrlParts {
    type V = UrlModel;

    open spec fn view(&self) -> UrlModel {
        UrlModel {
            text: self.text@,
            scheme: self.scheme@,
            host: match self.host {
                Some(host) => Some(host@),
                None => None,
            },
            cannot_be_a_base: self.cannot_be_a_base,
            username: self.username@,
            has_password: self.has_password,
        }
    }
}

pub open spec fn url_model(parts: Option<UrlParts>) -> Option<UrlModel> {
    match parts {
        Some(parts) => Some(parts@),
        None => None,
    }
}

/// What the `url` crate makes of a text, or `None` where it is no address.
pub uninterp spec fn parsed_url(text: Seq<char>) -> Option<UrlModel>;

/// `url::Url::parse`: the parts of an address, or nothing where the text is none.
#[verifier::external_body]
fn parse_url(text: &str) -> (parts: Option<UrlParts>)
    ensures
        url_model(parts) == parsed_url(text@),
{
    let url = url::Url::parse(text).ok()?;
    Some(
        UrlParts {
            text: url.as_str().to_owned(),
            scheme: url.scheme().to_owned(),
            host: url.host_str().map(str::to_owned),
            cannot_be_a_base: url.cannot_be_a_base(),
            username: url.username().to_owned(),
            has_password: url.password().is_some(),
        },
    )
}

/// Whether an address may be shown: on the web, with a host, and without
/// credentials.
pub open spec fn is_allowed(url: UrlModel) -> bool {
    &&& url.scheme == "http"@ || url.scheme == "https"@
    &&& url.host is Some
    &&& !url.cannot_be_a_base
    &&& url.username.len() == 0
    &&& !url.has_password
}

pub fn is_allowed_url(url: &UrlParts) -> (allowed: bool)
    ensures
        allowed == is_allowed(url@),
{
    (same_text(url.scheme.as_str(), "http") || same_text(url.scheme.as_str(), "https"))
        && url.host.is_some() && !url.cannot_be_a_base && chars_of(url.username.as_str()).len() == 0
        && !url.has_password
}

/// Where the first `://` of a text ends, looking from `at`.
pub open spec fn authority_start(text: Seq<char>, at: int) -> Option<int>
    decreases text.len() - at,
{
    if at < 0 || at + 3 > text.len() {
        None
    } else if text[at] == ':' && text[at + 1] == '/' && text[at + 2] == '/' {
        Some(at + 3)
    } else {
        authority_start(text, at + 1)
    }
}

/// Whether a text names an authority in so many words. A parser may repair one
/// that does not: `https:///name` would become `https://name`.
pub open spec fn spells_authority(text: Seq<char>) -> bool {
    match authority_start(text, 0) {
        Some(at) => at < text.len() && text[at] != '/',
        None => false,
    }
}

fn has_spelled_authority(text: &str) -> (spelled: bool)
    ensures
        spelled == spells_authority(text@),
{
    let chars = chars_of(text);
    let mut at: usize = 0;
    let total = chars.len();
    while at < total && total - at >= 3
        invariant
            chars@ == text@,
            total == chars@.len(),
            at <= total,
            authority_start(text@, 0) == authority_start(text@, at as int),
        decreases total - at,
    {
        if chars[at] == ':' && chars[at + 1] == '/' && chars[at + 2] == '/' {
            return at + 3 < total && chars[at + 3] != '/';
        }
        at += 1;
    }
    false
}

// ---------------------------------------------------------------------------
// Permissions and requests
// ---------------------------------------------------------------------------

/// What a page may do beyond showing itself. Nothing, unless allowed.
#[derive(Clone, Copy, Debug, PartialEq, Eq, Structural)]
pub struct WebviewPermissions {
    allow_user_media: bool,
}

impl WebviewPermissions {
    pub closed spec fn spec_allows_user_media(&self) -> bool {
        self.allow_user_media
    }

    pub fn deny_all() -> (permissions: Self)
        ensures
            !permissions.spec_allows_user_media(),
    {
        WebviewPermissions { allow_user_media: false }
    }

    /// Lets a page use the camera and the microphone.
    pub fn allow_user_media(self) -> (permissions: Self)
        ensures
            permissions.spec_allows_user_media(),
    {
        WebviewPermissions { allow_user_media: true }
    }

    pub fn allows_user_media(&self) -> (allows: bool)
        ensures
            allows == self.spec_allows_user_media(),
    {
        self.allow_user_media
    }
}

impl Default for WebviewPermissions {
    fn default() -> (permissions: Self)
        ensures
            !permissions.spec_allows_user_media(),
    {
        WebviewPermissions::deny_all()
    }
}

/// Permissions that allow the same are the same.
pub proof fn permissions_are_what_they_allow(first: WebviewPermissions, second: WebviewPermissions)
    requires
        first.spec_allows_user_media() == second.spec_allows_user_media(),
    ensures
        first == second,
{
}

/// Why a native webview failed.
#[derive(Clone, Debug, PartialEq, Eq)]
pub enum NativeWebviewError {
    InvalidUrl,
    RejectedNavigation(String),
    WindowClosed,
    HostFailure(String),
}

/// A webview that may be opened.
#[derive(Clone, Debug)]
pub struct NativeWebviewRequest {
    url: UrlParts,
    permissions: WebviewPermissions,
}

impl NativeWebviewRequest {
    pub closed spec fn spec_url(&self) -> UrlModel {
        self.url@
    }

    pub closed spec fn spec_permissions(&self) -> WebviewPermissions {
        self.permissions
    }

    /// Lets through what was parsed of an address.
    pub fn check(text: &str, parts: Option<UrlParts>, permissions: WebviewPermissions) -> (request:
        Result<Self, NativeWebviewError>)
        ensures
            match request {
                Ok(request) => spells_authority(text@) && parts is Some && is_allowed(
                    parts->Some_0@,
                ) && request.spec_url() == parts->Some_0@ && request.spec_permissions()
                    == permissions,
                Err(error) => error == NativeWebviewError::InvalidUrl && !(spells_authority(text@)
                    && parts is Some && is_allowed(parts->Some_0@)),
            },
    {
        if !has_spelled_authority(text) {
            return Err(NativeWebviewError::InvalidUrl);
        }
        match parts {
            Some(url) => if is_allowed_url(&url) {
                Ok(NativeWebviewRequest { url, permissions })
            } else {
                Err(NativeWebviewError::InvalidUrl)
            },
            None => Err(NativeWebviewError::InvalidUrl),
        }
    }

    /// Lets an address through.
    pub fn parse(url: &str, permissions: WebviewPermissions) -> (request: Result<
        Self,
        NativeWebviewError,
    >)
        ensures
            match request {
                Ok(request) => spells_authority(url@) && parsed_url(url@) is Some && is_allowed(
                    parsed_url(url@)->Some_0,
                ) && request.spec_url() == parsed_url(url@)->Some_0 && request.spec_permissions()
                    == permissions,
                Err(error) => error == NativeWebviewError::InvalidUrl && !(spells_authority(url@)
                    && parsed_url(url@) is Some && is_allowed(parsed_url(url@)->Some_0)),
            },
    {
        NativeWebviewRequest::check(url, parse_url(url), permissions)
    }

    /// The address in its normal form.
    pub fn url(&self) -> (text: &str)
        ensures
            text@ == self.spec_url().text,
    {
        self.url.text.as_str()
    }

    pub fn permissions(&self) -> (permissions: WebviewPermissions)
        ensures
            permissions == self.spec_permissions(),
    {
        self.permissions
    }
}

// ---------------------------------------------------------------------------
// Navigation
// ---------------------------------------------------------------------------

/// Why a page may not go to an address, if it may not.
pub open spec fn navigation_fault(url: Option<UrlModel>) -> Option<Seq<char>> {
    match url {
        Some(url) => if is_allowed(url) { None } else { Some(url.scheme) },
        None => Some("malformed URL"@),
    }
}

/// Judges what was parsed of the address that a page wants to go to.
pub fn judge_navigation(parts: Option<UrlParts>) -> (rejected: Option<NativeWebviewError>)
    ensures
        match (navigation_fault(url_model(parts)), rejected) {
            (None, None) => true,
            (Some(reason), Some(NativeWebviewError::RejectedNavigation(text))) => text@ == reason,
            _ => false,
        },
{
    match parts {
        Some(url) => if is_allowed_url(&url) {
            None
        } else {
            Some(NativeWebviewError::RejectedNavigation(url.scheme))
        },
        None => Some(NativeWebviewError::RejectedNavigation("malformed URL".to_owned())),
    }
}

/// Judges an address that a page wants to go to.
pub fn navigate(text: &str) -> (rejected: Option<NativeWebviewError>)
    ensures
        match (navigation_fault(parsed_url(text@)), rejected) {
            (None, None) => true,
            (Some(reason), Some(NativeWebviewError::RejectedNavigation(text))) => text@ == reason,
            _ => false,
        },
{
    judge_navigation(parse_url(text))
}

/// Why a new window is refused: always.
pub fn judge_popup(parts: Option<UrlParts>) -> (rejected: NativeWebviewError)
    ensures
        match rejected {
            NativeWebviewError::RejectedNavigation(text) => text@ == "popup to "@ + match url_model(
                parts,
            ) {
                Some(url) => url.scheme,
                None => "malformed URL"@,
            },
            _ => false,
        },
{
    let text = match &parts {
        Some(url) => join2("popup to ", url.scheme.as_str()),
        None => join2("popup to ", "malformed URL"),
    };
    NativeWebviewError::RejectedNavigation(text)
}

/// Refuses a new window.
pub fn open_popup(text: &str) -> (rejected: NativeWebviewError)
    ensures
        match rejected {
            NativeWebviewError::RejectedNavigation(reason) => reason@ == "popup to "@
                + match parsed_url(text@) {
                Some(url) => url.scheme,
                None => "malformed URL"@,
            },
            _ => false,
        },
{
    judge_popup(parse_url(text))
}

/// Whether a page that finished loading is the one that was asked for.
pub fn finishes_load(target: &str, loaded: Option<UrlParts>) -> (finishes: bool)
    ensures
        finishes == match url_model(loaded) {
            Some(url) => url.text == target@,
            None => false,
        },
{
    match &loaded {
        Some(url) => same_text(url.text.as_str(), target),
        None => false,
    }
}

/// Whether the address that finished loading is the one that was asked for.
pub fn page_loaded(target: &str, loaded: &str) -> (finishes: bool)
    ensures
        finishes == match parsed_url(loaded@) {
            Some(url) => url.text == target@,
            None => false,
        },
{
    finishes_load(target, parse_url(loaded))
}

// ---------------------------------------------------------------------------
// Failures
// ---------------------------------------------------------------------------

/// Why an operation on a webview failed.
#[derive(Clone, Debug, PartialEq, Eq)]
pub enum WebviewError {
    InvalidUrl,
    RejectedNavigation(String),
    TimedOut,
    Cancelled,
    WindowClosed,
    CapturePixelLimit,
    CaptureByteLimit,
    CaptureBusy,
    CaptureFailed,
    HostFailure(String),
}

impl WebviewError {
    pub open spec fn is_rejected(&self, reason: Seq<char>) -> bool {
        match *self {
            WebviewError::RejectedNavigation(text) => text@ == reason,
            _ => false,
        }
    }

    pub open spec fn is_host_failure(&self, reason: Seq<char>) -> bool {
        match *self {
            WebviewError::HostFailure(text) => text@ == reason,
            _ => false,
        }
    }
}

impl NativeWebviewError {
    pub open spec fn text(&self) -> Seq<char> {
        match *self {
            NativeWebviewError::InvalidUrl => "webview URL is malformed or not an HTTP(S) URL"@,
            NativeWebviewError::RejectedNavigation(reason) =>
                "webview navigation was rejected because "@ + reason@,
            NativeWebviewError::WindowClosed =>
                "the webview window was closed before its requested page loaded"@,
            NativeWebviewError::HostFailure(reason) => "the native webview host failed: "@
                + reason@,
        }
    }

    /// A sentence for people.
    pub fn message(&self) -> (message: String)
        ensures
            message@ == self.text(),
    {
        match self {
            NativeWebviewError::InvalidUrl =>
                "webview URL is malformed or not an HTTP(S) URL".to_owned(),
            NativeWebviewError::RejectedNavigation(reason) => join2(
                "webview navigation was rejected because ",
                reason.as_str(),
            ),
            NativeWebviewError::WindowClosed =>
                "the webview window was closed before its requested page loaded".to_owned(),
            NativeWebviewError::HostFailure(reason) => join2(
                "the native webview host failed: ",
                reason.as_str(),
            ),
        }
    }
}

impl WebviewError {
    pub open spec fn text(&self) -> Seq<char> {
        match *self {
            WebviewError::InvalidUrl => "webview URL is malformed or not an HTTP(S) URL"@,
            WebviewError::RejectedNavigation(reason) => "webview navigation was rejected: "@
                + reason@,
            WebviewError::TimedOut => "webview load timed out"@,
            WebviewError::Cancelled => "webview operation was cancelled"@,
            WebviewError::WindowClosed => "the webview window was closed"@,
            WebviewError::CapturePixelLimit => "the webview capture exceeds its pixel limit"@,
            WebviewError::CaptureByteLimit => "the webview capture exceeds its byte limit"@,
            WebviewError::CaptureBusy => "too many webview captures are under way"@,
            WebviewError::CaptureFailed => "the webview capture failed"@,
            WebviewError::HostFailure(reason) => "the webview host failed: "@ + reason@,
        }
    }

    /// A sentence for people.
    pub fn message(&self) -> (message: String)
        ensures
            message@ == self.text(),
    {
        match self {
            WebviewError::InvalidUrl => "webview URL is malformed or not an HTTP(S) URL".to_owned(),
            WebviewError::RejectedNavigation(reason) => join2(
                "webview navigation was rejected: ",
                reason.as_str(),
            ),
            WebviewError::TimedOut => "webview load timed out".to_owned(),
            WebviewError::Cancelled => "webview operation was cancelled".to_owned(),
            WebviewError::WindowClosed => "the webview window was closed".to_owned(),
            WebviewError::CapturePixelLimit =>
                "the webview capture exceeds its pixel limit".to_owned(),
            WebviewError::CaptureByteLimit =>
                "the webview capture exceeds its byte limit".to_owned(),
            WebviewError::CaptureBusy => "too many webview captures are under way".to_owned(),
            WebviewError::CaptureFailed => "the webview capture failed".to_owned(),
            WebviewError::HostFailure(reason) => join2(
                "the webview host failed: ",
                reason.as_str(),
            ),
        }
    }
}

/// A failure of the host, in its own words.
pub fn host_failure(message: &str) -> (error: NativeWebviewError)
    ensures
        match error {
            NativeWebviewError::HostFailure(text) => text@ == message@,
            _ => false,
        },
{
    NativeWebviewError::HostFailure(message.to_owned())
}

/// How an operation ends that failed natively.
pub open spec fn native_terminal(error: NativeWebviewError) -> Terminal {
    match error {
        NativeWebviewError::RejectedNavigation(_) => Terminal::Rejected,
        NativeWebviewError::InvalidUrl => Terminal::Rejected,
        NativeWebviewError::WindowClosed => Terminal::Closed,
        NativeWebviewError::HostFailure(_) => Terminal::Trapped,
    }
}

pub fn terminal_for_native(error: &NativeWebviewError) -> (terminal: Terminal)
    ensures
        terminal == native_terminal(*error),
{
    match error {
        NativeWebviewError::RejectedNavigation(_) => Terminal::Rejected,
        NativeWebviewError::InvalidUrl => Terminal::Rejected,
        NativeWebviewError::WindowClosed => Terminal::Closed,
        NativeWebviewError::HostFailure(_) => Terminal::Trapped,
    }
}

/// A native failure as callers see it.
pub open spec fn is_mapped_native(error: NativeWebviewError, mapped: WebviewError) -> bool {
    match error {
        NativeWebviewError::InvalidUrl => mapped == WebviewError::InvalidUrl,
        NativeWebviewError::RejectedNavigation(reason) => mapped.is_rejected(reason@),
        NativeWebviewError::WindowClosed => mapped == WebviewError::WindowClosed,
        NativeWebviewError::HostFailure(reason) => mapped.is_host_failure(reason@),
    }
}

pub fn map_native(error: NativeWebviewError) -> (mapped: WebviewError)
    ensures
        is_mapped_native(error, mapped),
{
    match error {
        NativeWebviewError::InvalidUrl => WebviewError::InvalidUrl,
        NativeWebviewError::RejectedNavigation(reason) => WebviewError::RejectedNavigation(reason),
        NativeWebviewError::WindowClosed => WebviewError::WindowClosed,
        NativeWebviewError::HostFailure(reason) => WebviewError::HostFailure(reason),
    }
}

/// The end of an operation as callers see it, where it is no success.
pub open spec fn is_mapped_terminal(terminal: Terminal, mapped: WebviewError) -> bool {
    match terminal {
        Terminal::Cancelled => mapped == WebviewError::Cancelled,
        Terminal::TimedOut => mapped == WebviewError::TimedOut,
        Terminal::Closed => mapped == WebviewError::WindowClosed,
        Terminal::Rejected => mapped.is_rejected("navigation policy"@),
        Terminal::Completed => mapped.is_host_failure("unexpected completed error"@),
        Terminal::Trapped => mapped.is_host_failure("native webview operation failed"@),
        Terminal::OwnerExited => mapped.is_host_failure("native webview operation failed"@),
    }
}

pub fn map_terminal(terminal: Terminal) -> (mapped: WebviewError)
    ensures
        is_mapped_terminal(terminal, mapped),
{
    match terminal {
        Terminal::Cancelled => WebviewError::Cancelled,
        Terminal::TimedOut => WebviewError::TimedOut,
        Terminal::Closed => WebviewError::WindowClosed,
        Terminal::Rejected => WebviewError::RejectedNavigation("navigation policy".to_owned()),
        Terminal::Completed => WebviewError::HostFailure("unexpected completed error".to_owned()),
        Terminal::Trapped => WebviewError::HostFailure(
            "native webview operation failed".to_owned(),
        ),
        Terminal::OwnerExited => WebviewError::HostFailure(
            "native webview operation failed".to_owned(),
        ),
    }
}

/// A refusal of the hub as callers see it.
pub open spec fn is_mapped_hub(error: HubError, mapped: WebviewError) -> bool {
    match error {
        HubError::Quota => mapped.is_host_failure("webview operation quota exhausted"@),
        HubError::Closed => mapped == WebviewError::WindowClosed,
        HubError::Stale => mapped == WebviewError::WindowClosed,
        _ => mapped.is_host_failure("invalid semantic webview operation"@),
    }
}

pub fn map_hub(error: HubError) -> (mapped: WebviewError)
    ensures
        is_mapped_hub(error, mapped),
{
    match error {
        HubError::Quota => WebviewError::HostFailure(
            "webview operation quota exhausted".to_owned(),
        ),
        HubError::Closed => WebviewError::WindowClosed,
        HubError::Stale => WebviewError::WindowClosed,
        _ => WebviewError::HostFailure("invalid semantic webview operation".to_owned()),
    }
}

/// A native failure ends an operation in a way that never reads as success.
pub proof fn native_failures_never_complete(error: NativeWebviewError)
    ensures
        native_terminal(error) != Terminal::Completed,
{
}

// ---------------------------------------------------------------------------
// Outcomes
// ---------------------------------------------------------------------------

/// What the hub says about an operation that should have ended.
pub open spec fn is_outcome(
    observed: Result<Option<Terminal>, HubError>,
    unfinished: Seq<char>,
    outcome: Result<(), WebviewError>,
) -> bool {
    match (observed, outcome) {
        (Ok(Some(Terminal::Completed)), Ok(())) => true,
        (Ok(Some(terminal)), Err(error)) => terminal != Terminal::Completed && is_mapped_terminal(
            terminal,
            error,
        ),
        (Ok(None), Err(error)) => error.is_host_failure(unfinished),
        (Err(refusal), Err(error)) => is_mapped_hub(refusal, error),
        _ => false,
    }
}

fn settle(observed: Result<Option<Terminal>, HubError>, unfinished: &str) -> (outcome: Result<
    (),
    WebviewError,
>)
    ensures
        is_outcome(observed, unfinished@, outcome),
{
    match observed {
        Ok(Some(terminal)) => if terminal == Terminal::Completed {
            Ok(())
        } else {
            Err(map_terminal(terminal))
        },
        Ok(None) => Err(WebviewError::HostFailure(unfinished.to_owned())),
        Err(error) => Err(map_hub(error)),
    }
}

/// What opening a webview came to.
pub fn open_outcome(observed: Result<Option<Terminal>, HubError>) -> (outcome: Result<
    (),
    WebviewError,
>)
    ensures
        is_outcome(observed, "webview open did not complete"@, outcome),
{
    settle(observed, "webview open did not complete")
}

/// What loading a page came to.
pub fn load_outcome(observed: Result<Option<Terminal>, HubError>) -> (outcome: Result<
    (),
    WebviewError,
>)
    ensures
        is_outcome(observed, "load operation did not complete"@, outcome),
{
    settle(observed, "load operation did not complete")
}

/// What closing a webview came to.
pub fn close_outcome(observed: Result<Option<Terminal>, HubError>) -> (outcome: Result<
    (),
    WebviewError,
>)
    ensures
        is_outcome(observed, "close operation did not complete"@, outcome),
{
    settle(observed, "close operation did not complete")
}

/// What the end of a webview looks like to whoever waited for it. It is never a
/// success: the end is what went wrong.
pub fn terminal_outcome(observed: Result<Option<Terminal>, HubError>) -> (error: WebviewError)
    ensures
        match observed {
            Ok(Some(terminal)) => is_mapped_terminal(terminal, error),
            Ok(None) => error.is_host_failure("terminal webview operation did not complete"@),
            Err(refusal) => is_mapped_hub(refusal, error),
        },
{
    match observed {
        Ok(Some(terminal)) => map_terminal(terminal),
        Ok(None) => WebviewError::HostFailure(
            "terminal webview operation did not complete".to_owned(),
        ),
        Err(refusal) => map_hub(refusal),
    }
}

/// What waiting for a page brought.
#[derive(Debug)]
pub enum LoadWait {
    Loaded,
    Failed(NativeWebviewError),
    /// Whoever would have told is gone.
    Abandoned,
    TimedOut,
}

pub fn load_terminal(wait: &LoadWait) -> (terminal: Terminal)
    ensures
        terminal == match *wait {
            LoadWait::Loaded => Terminal::Completed,
            LoadWait::Failed(error) => native_terminal(error),
            LoadWait::Abandoned => Terminal::Closed,
            LoadWait::TimedOut => Terminal::TimedOut,
        },
{
    match wait {
        LoadWait::Loaded => Terminal::Completed,
        LoadWait::Failed(error) => terminal_for_native(error),
        LoadWait::Abandoned => Terminal::Closed,
        LoadWait::TimedOut => Terminal::TimedOut,
    }
}

/// How to revoke a webview that ended by itself, if it is to be revoked: one
/// whose closing was asked for ends by that.
pub fn revocation(ended: &LoadWait, explicitly_closing: bool) -> (terminal: Option<Terminal>)
    ensures
        terminal == match *ended {
            LoadWait::Loaded => None,
            LoadWait::Failed(error) => if explicitly_closing {
                None
            } else {
                Some(native_terminal(error))
            },
            LoadWait::Abandoned => if explicitly_closing {
                None
            } else {
                Some(Terminal::Closed)
            },
            LoadWait::TimedOut => if explicitly_closing {
                None
            } else {
                Some(Terminal::TimedOut)
            },
        },
{
    match ended {
        LoadWait::Loaded => None,
        _ => if explicitly_closing {
            None
        } else {
            Some(load_terminal(ended))
        },
    }
}

/// What to do with a window once the webview in it was built or not.
#[derive(Clone, Copy, Debug, PartialEq, Eq, Structural)]
pub enum CreationStep {
    /// Keep it and hand it over.
    Publish,
    /// Close it: nobody wants it any more.
    Discard,
    /// Close it and report the failure.
    Report,
}

/// Decides by whether the webview was built and whether someone still waits.
pub fn creation_step(built: bool, waiter_present: bool, waiter_gone: bool) -> (step: CreationStep)
    ensures
        step == if built && waiter_present && !waiter_gone {
            CreationStep::Publish
        } else if built || !waiter_present {
            CreationStep::Discard
        } else {
            CreationStep::Report
        },
{
    if built && waiter_present && !waiter_gone {
        CreationStep::Publish
    } else if built || !waiter_present {
        CreationStep::Discard
    } else {
        CreationStep::Report
    }
}

/// Whether a window has been asked to close.
#[derive(Clone, Copy, Debug, PartialEq, Eq, Structural)]
pub struct CloseGate {
    requested: bool,
}

impl CloseGate {
    pub closed spec fn spec_requested(&self) -> bool {
        self.requested
    }

    pub fn new() -> (gate: Self)
        ensures
            !gate.spec_requested(),
    {
        CloseGate { requested: false }
    }

    /// Whether the host has to be asked: once.
    pub fn begin(&mut self) -> (asks: bool)
        ensures
            asks == !old(self).spec_requested(),
            final(self).spec_requested(),
    {
        let asks = !self.requested;
        self.requested = true;
        asks
    }

    /// The host refused; the next one may ask again.
    pub fn refused(&mut self)
        ensures
            !final(self).spec_requested(),
    {
        self.requested = false;
    }
}

/// Counts for acceptance tests.
#[derive(Clone, Copy, Debug, PartialEq, Eq, Structural)]
pub struct WebviewTestObservation {
    pub native_backings: usize,
    pub live_resources: usize,
    pub pending_operations: usize,
}

/// An address is allowed only where it is on the web, names a host, and carries no credentials;
/// one that falls short in a single respect is refused by its scheme.
pub proof fn plain_web_addresses_alone_are_allowed(url: UrlModel, other: UrlModel)
    requires
        url.scheme == "http"@ || url.scheme == "https"@,
        url.host is Some,
        !url.cannot_be_a_base,
        url.username.len() == 0,
        !url.has_password,
    ensures
        navigation_fault(Some(url)) is None,
        navigation_fault(None) == Some("malformed URL"@),
        other.scheme != "http"@ && other.scheme != "https"@ ==> navigation_fault(
            Some(UrlModel { scheme: other.scheme, ..url }),
        ) == Some(other.scheme),
        navigation_fault(Some(UrlModel { host: None, ..url })) == Some(url.scheme),
        navigation_fault(Some(UrlModel { cannot_be_a_base: true, ..url })) == Some(url.scheme),
        navigation_fault(Some(UrlModel { has_password: true, ..url })) == Some(url.scheme),
        other.username.len() > 0 ==> navigation_fault(
            Some(UrlModel { username: other.username, ..url }),
        ) == Some(url.scheme),
        navigation_fault(Some(UrlModel { text: other.text, ..url })) is None,
        other.host is Some ==> navigation_fault(Some(UrlModel { host: other.host, ..url })) is None,
{
}

proof fn lemma_authority_start(text: Seq<char>, at: int, end: int)
    requires
        0 <= at <= end,
        end + 3 <= text.len(),
        forall|i: int| at <= i < end ==> #[trigger] text[i] != ':',
        text[end] == ':',
        text[end + 1] == '/',
        text[end + 2] == '/',
    ensures
        authority_start(text, at) == Some(end + 3),
    decreases end - at,
{
    if at < end {
        assert(text[at] != ':');
        lemma_authority_start(text, at + 1, end);
    }
}

proof fn lemma_no_authority(text: Seq<char>, at: int)
    requires
        0 <= at,
        forall|i: int| at <= i < text.len() ==> #[trigger] text[i] != ':',
    ensures
        authority_start(text, at) is None,
    decreases text.len() - at,
{
    if at + 3 <= text.len() {
        assert(text[at] != ':');
        lemma_no_authority(text, at + 1);
    }
}

/// An authority stands behind a colon and two slashes, and not behind three.
pub proof fn authorities_stand_behind_two_slashes(scheme: Seq<char>, rest: Seq<char>)
    requires
        !scheme.contains(':'),
    ensures
        spells_authority(scheme + seq![':', '/', '/'] + rest) <==> rest.len() > 0 && rest[0] != '/',
        !spells_authority(scheme),
{
    let text = scheme + seq![':', '/', '/'] + rest;
    let end = scheme.len() as int;
    assert forall|i: int| 0 <= i < end implies #[trigger] text[i] != ':' by {
        assert(text[i] == scheme[i]);
        assert(scheme.contains(scheme[i]));
    }
    lemma_authority_start(text, 0, end);
    assert forall|i: int| 0 <= i < scheme.len() implies #[trigger] scheme[i] != ':' by {
        assert(scheme.contains(scheme[i]));
    }
    lemma_no_authority(scheme, 0);
}

/// Work succeeded only where it was observed to complete; the other ends keep their names.
pub proof fn only_completed_work_succeeds(
    observed: Result<Option<Terminal>, HubError>,
    unfinished: Seq<char>,
    error: WebviewError,
    terminal: Terminal,
    refusal: HubError,
)
    ensures
        is_outcome(observed, unfinished, Ok(())) <==> observed == Ok::<Option<Terminal>, HubError>(
            Some(Terminal::Completed),
        ),
        is_mapped_terminal(terminal, WebviewError::Cancelled) <==> terminal == Terminal::Cancelled,
        is_mapped_terminal(terminal, WebviewError::TimedOut) <==> terminal == Terminal::TimedOut,
        is_mapped_terminal(terminal, WebviewError::WindowClosed) <==> terminal == Terminal::Closed,
        is_mapped_terminal(terminal, error) && error is RejectedNavigation <==> terminal
            == Terminal::Rejected && is_mapped_terminal(terminal, error),
        is_mapped_hub(refusal, WebviewError::WindowClosed) <==> refusal == HubError::Closed
            || refusal == HubError::Stale,
        is_mapped_hub(refusal, error) && error.is_host_failure("webview operation quota exhausted"@)
            ==> refusal == HubError::Quota,
{
    reveal_strlit("webview operation quota exhausted");
    reveal_strlit("invalid semantic webview operation");
    assert("webview operation quota exhausted"@[0] == 'w');
    assert("invalid semantic webview operation"@[0] == 'i');
}

/// A failure of the native host keeps its kind and its words, and ends the work accordingly.
pub proof fn native_failures_keep_their_kind(error: NativeWebviewError, mapped: WebviewError)
    requires
        is_mapped_native(error, mapped),
    ensures
        error == NativeWebviewError::InvalidUrl <==> mapped == WebviewError::InvalidUrl,
        error == NativeWebviewError::WindowClosed <==> mapped == WebviewError::WindowClosed,
        match mapped {
            WebviewError::RejectedNavigation(words) => match error {
                NativeWebviewError::RejectedNavigation(reason) => words@ == reason@,
                _ => false,
            },
            WebviewError::HostFailure(words) => match error {
                NativeWebviewError::HostFailure(reason) => words@ == reason@,
                _ => false,
            },
            WebviewError::InvalidUrl => true,
            WebviewError::WindowClosed => true,
            _ => false,
        },
        native_terminal(error) == Terminal::Closed <==> mapped == WebviewError::WindowClosed,
        native_terminal(error) == Terminal::Trapped <==> mapped is HostFailure,
        native_terminal(error) == Terminal::Rejected <==> mapped is RejectedNavigation || mapped
            == WebviewError::InvalidUrl,
{
}

/// A load that succeeded revokes nothing, nor does one that ended because its window is being
/// closed; any other revokes with the end that it is reported by.
pub proof fn revocations_say_how_the_load_ended(
    ended: &LoadWait,
    closing: bool,
    terminal: Terminal,
    revoked: Option<Terminal>,
)
    requires
        call_ensures(load_terminal, (ended,), terminal),
        call_ensures(revocation, (ended, closing), revoked),
    ensures
        *ended is Loaded <==> terminal == Terminal::Completed,
        *ended is Loaded || closing ==> revoked is None,
        !(*ended is Loaded) && !closing ==> revoked == Some(terminal),
        *ended is TimedOut <==> terminal == Terminal::TimedOut,
{
}

/// A page has loaded where its address is the one that was asked for, and a popup is refused
/// whatever its address.
pub proof fn loads_finish_at_their_target(
    target: &str,
    loaded: Option<UrlParts>,
    finishes: bool,
    popup: NativeWebviewError,
)
    requires
        call_ensures(finishes_load, (target, loaded), finishes),
        call_ensures(judge_popup, (loaded,), popup),
    ensures
        finishes <==> loaded is Some && loaded->Some_0.text@ == target@,
        popup is RejectedNavigation,
{
}

/// A request stands for a plain web address, and keeps it and its permissions.
pub proof fn requests_stand_for_plain_addresses(
    url: &str,
    permissions: WebviewPermissions,
    request: Result<NativeWebviewRequest, NativeWebviewError>,
)
    requires
        call_ensures(NativeWebviewRequest::parse, (url, permissions), request),
    ensures
        request is Err ==> request->Err_0 == NativeWebviewError::InvalidUrl,
        request is Ok ==> {
            let held = request->Ok_0.spec_url();
            &&& parsed_url(url@) == Some(held)
            &&& held.scheme == "http"@ || held.scheme == "https"@
            &&& held.host is Some
            &&& held.username.len() == 0
            &&& !held.has_password
            &&& request->Ok_0.spec_permissions() == permissions
        },
{
}

} // verus!
