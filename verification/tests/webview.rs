use kernal_api::tauri::capture::{
    capture_result, check_limits, drop_request, dropped_request_terminal, map_capture, map_lease,
    CaptureError, CaptureTable, RequestStage, ViewportCaptureLimits, WebviewSnapshot,
};
use kernal_api::tauri::dpi::Correction;
use kernal_api::tauri::flow::{
    after_capture_wait, after_load, after_waiting, capture_visible_png, close, close_terminal,
    execute, first_look, open_failure, open_webview, stage_failure, wait_limit, CaptureEvent,
    CaptureStage, CloseStage, JobStage, OpenStage, TerminalStep, JOB_WAIT_MS,
};
use kernal_api::tauri::hub::{ClosingSet, HubError, OneShot, StoreCounter, Terminal};
use kernal_api::tauri::sketch::{
    admit_job, check_submission, count_unfinished, dropped_terminal, job_terminal, revokes_view,
    drain_step, settle_wait, shutdown_outcome, DrainStep, JobWait, WebviewJob, MAX_JOBS,
    SHUTDOWN_WAIT_MS,
};
use kernal_api::tauri::trace::Recorder;
use kernal_api::tauri::webkitgtk::{detect_x11, environment_overrides, HostFacts};
use kernal_api::tauri::webview::{
    close_outcome, creation_step, finishes_load, host_failure, is_allowed_url, judge_navigation,
    judge_popup, load_outcome, load_terminal, map_hub, map_native, map_terminal, navigate,
    open_outcome, open_popup, page_loaded, revocation, terminal_for_native, terminal_outcome,
    CloseGate, CreationStep, LoadWait, NativeWebviewError, NativeWebviewRequest, UrlParts,
    WebviewError, WebviewPermissions, WebviewTestObservation,
};
use kernal_api::windows::capture::{
    capture_outcome, check_capture, check_pixels, check_png, check_viewport,
    map_hub as map_capture_hub, record_header, seek_origin, seek_status, stat_status, write_bytes,
    write_status, EncoderState, SeekOrigin, StreamStatus,
};

#[test]
fn external_url_policy_admits_loopback_and_refuses_ambient_schemes() {
    assert!(NativeWebviewRequest::parse(
        "http://127.0.0.1:8080/page",
        WebviewPermissions::default(),
    )
    .is_ok());
    assert!(
        NativeWebviewRequest::parse("https://example.test/", WebviewPermissions::default(),)
            .is_ok()
    );
    for forbidden in [
        "file:///etc/passwd",
        "data:text/html,hello",
        "tauri://localhost",
        "javascript:alert(1)",
        "https:///missing-host",
        "https://user@example.test/",
    ] {
        assert_eq!(
            NativeWebviewRequest::parse(forbidden, WebviewPermissions::default()).unwrap_err(),
            NativeWebviewError::InvalidUrl,
            "must reject {forbidden}",
        );
    }
}

#[test]
fn addresses_are_kept_in_their_normal_form() {
    let request = NativeWebviewRequest::parse(
        "HTTP://EXAMPLE.test:80/a/../b",
        WebviewPermissions::deny_all().allow_user_media(),
    )
    .unwrap();
    assert_eq!(request.url(), "http://example.test/b");
    assert!(request.permissions().allows_user_media());
}

#[test]
fn user_media_permission_is_explicitly_opt_in() {
    assert_eq!(
        WebviewPermissions::default(),
        WebviewPermissions::deny_all()
    );
    assert_ne!(
        WebviewPermissions::deny_all(),
        WebviewPermissions::deny_all().allow_user_media()
    );
}

fn parts(text: &str, scheme: &str, host: Option<&str>) -> UrlParts {
    UrlParts {
        text: text.to_string(),
        scheme: scheme.to_string(),
        host: host.map(str::to_string),
        cannot_be_a_base: false,
        username: String::new(),
        has_password: false,
    }
}

#[test]
fn parts_of_an_address_decide() {
    let good = parts("http://h/", "http", Some("h"));
    assert!(is_allowed_url(&good));
    assert!(is_allowed_url(&parts("https://h/", "https", Some("h"))));
    assert!(!is_allowed_url(&parts("ftp://h/", "ftp", Some("h"))));
    assert!(!is_allowed_url(&parts("http:", "http", None)));
    let mut named = good.clone();
    named.username = "user".to_string();
    assert!(!is_allowed_url(&named));
    let mut secret = good.clone();
    secret.has_password = true;
    assert!(!is_allowed_url(&secret));
    let mut opaque = good.clone();
    opaque.cannot_be_a_base = true;
    assert!(!is_allowed_url(&opaque));
    let check = |parts| {
        NativeWebviewRequest::check("http://h", parts, WebviewPermissions::deny_all())
    };
    assert_eq!(check(Some(good)).unwrap().url(), "http://h/");
    assert_eq!(check(Some(named)).unwrap_err(), NativeWebviewError::InvalidUrl);
    assert_eq!(check(None).unwrap_err(), NativeWebviewError::InvalidUrl);
    for unspelled in ["http:h", "http://", "http:///h"] {
        assert_eq!(
            NativeWebviewRequest::check(
                unspelled,
                Some(parts("http://h/", "http", Some("h"))),
                WebviewPermissions::deny_all()
            )
            .unwrap_err(),
            NativeWebviewError::InvalidUrl
        );
    }
}

#[test]
fn navigation_follows_the_same_policy() {
    assert_eq!(navigate("https://example.test/"), None);
    assert!(matches!(
        navigate("file:///etc/passwd"),
        Some(NativeWebviewError::RejectedNavigation(_))
    ));
    assert!(matches!(
        navigate("not an address"),
        Some(NativeWebviewError::RejectedNavigation(_))
    ));
    assert_eq!(judge_navigation(Some(parts("http://h/", "http", Some("h")))), None);
    assert!(judge_navigation(None).is_some());
    assert!(matches!(
        open_popup("https://example.test/"),
        NativeWebviewError::RejectedNavigation(_)
    ));
    assert!(matches!(
        judge_popup(None),
        NativeWebviewError::RejectedNavigation(_)
    ));
}

#[test]
fn a_load_finishes_on_its_own_page() {
    assert!(page_loaded("http://example.test/", "HTTP://example.test"));
    assert!(!page_loaded("http://example.test/", "http://example.test/other"));
    assert!(!page_loaded("http://example.test/", "about:blank"));
    assert!(finishes_load(
        "http://h/",
        Some(parts("http://h/", "http", Some("h")))
    ));
    assert!(!finishes_load("http://h/", None));
}

#[test]
fn native_failures_are_mapped() {
    let rejected = || NativeWebviewError::RejectedNavigation("r".to_string());
    assert_eq!(host_failure("x"), NativeWebviewError::HostFailure("x".to_string()));
    assert_eq!(terminal_for_native(&rejected()), Terminal::Rejected);
    assert_eq!(
        terminal_for_native(&NativeWebviewError::InvalidUrl),
        Terminal::Rejected
    );
    assert_eq!(
        terminal_for_native(&NativeWebviewError::WindowClosed),
        Terminal::Closed
    );
    assert_eq!(terminal_for_native(&host_failure("x")), Terminal::Trapped);
    assert_eq!(
        map_native(rejected()),
        WebviewError::RejectedNavigation("r".to_string())
    );
    assert_eq!(
        map_native(NativeWebviewError::InvalidUrl),
        WebviewError::InvalidUrl
    );
    assert_eq!(
        map_native(NativeWebviewError::WindowClosed),
        WebviewError::WindowClosed
    );
    assert_eq!(
        map_native(host_failure("x")),
        WebviewError::HostFailure("x".to_string())
    );
}

#[test]
fn failures_of_a_webview_say_what_they_are() {
    assert_eq!(
        NativeWebviewError::RejectedNavigation("r".to_string()).message(),
        "webview navigation was rejected because r"
    );
    assert_eq!(
        NativeWebviewError::WindowClosed.message(),
        "the webview window was closed before its requested page loaded"
    );
    assert_eq!(
        host_failure("x").message(),
        "the native webview host failed: x"
    );
    assert_eq!(
        WebviewError::InvalidUrl.message(),
        "webview URL is malformed or not an HTTP(S) URL"
    );
    assert_eq!(WebviewError::TimedOut.message(), "webview load timed out");
    assert_eq!(
        WebviewError::HostFailure("x".to_string()).message(),
        "the webview host failed: x"
    );
}

#[test]
fn ends_and_refusals_are_mapped() {
    assert_eq!(map_terminal(Terminal::Cancelled), WebviewError::Cancelled);
    assert_eq!(map_terminal(Terminal::TimedOut), WebviewError::TimedOut);
    assert_eq!(map_terminal(Terminal::Closed), WebviewError::WindowClosed);
    assert_eq!(
        map_terminal(Terminal::Rejected),
        WebviewError::RejectedNavigation("navigation policy".to_string())
    );
    assert_eq!(
        map_terminal(Terminal::OwnerExited),
        map_terminal(Terminal::Trapped)
    );
    assert_eq!(
        map_hub(HubError::Quota),
        WebviewError::HostFailure("webview operation quota exhausted".to_string())
    );
    assert_eq!(map_hub(HubError::Stale), WebviewError::WindowClosed);
    assert_eq!(map_hub(HubError::Closed), WebviewError::WindowClosed);
    for error in [
        HubError::Invalid,
        HubError::WrongKind,
        HubError::WrongRights,
        HubError::Exhausted,
    ] {
        assert_eq!(
            map_hub(error),
            WebviewError::HostFailure("invalid semantic webview operation".to_string())
        );
    }
}

#[test]
fn only_completion_is_success() {
    for settle in [open_outcome, load_outcome, close_outcome] {
        assert_eq!(settle(Ok(Some(Terminal::Completed))), Ok(()));
        assert_eq!(
            settle(Ok(Some(Terminal::TimedOut))),
            Err(WebviewError::TimedOut)
        );
        assert!(matches!(settle(Ok(None)), Err(WebviewError::HostFailure(_))));
        assert_eq!(
            settle(Err(HubError::Stale)),
            Err(WebviewError::WindowClosed)
        );
    }
    assert_eq!(
        terminal_outcome(Ok(Some(Terminal::Completed))),
        WebviewError::HostFailure("unexpected completed error".to_string())
    );
}

#[test]
fn waiting_for_a_page_ends_somehow() {
    assert_eq!(load_terminal(&LoadWait::Loaded), Terminal::Completed);
    assert_eq!(load_terminal(&LoadWait::Abandoned), Terminal::Closed);
    assert_eq!(load_terminal(&LoadWait::TimedOut), Terminal::TimedOut);
    assert_eq!(revocation(&LoadWait::Loaded, false), None);
    assert_eq!(revocation(&LoadWait::TimedOut, true), None);
    assert_eq!(
        revocation(&LoadWait::Failed(NativeWebviewError::InvalidUrl), false),
        Some(Terminal::Rejected)
    );
    assert_eq!(creation_step(true, true, false), CreationStep::Publish);
    assert_eq!(creation_step(true, true, true), CreationStep::Discard);
    assert_eq!(creation_step(true, false, false), CreationStep::Discard);
    assert_eq!(creation_step(false, true, false), CreationStep::Report);
    let mut gate = CloseGate::new();
    assert!(gate.begin());
    assert!(!gate.begin());
    gate.refused();
    assert!(gate.begin());
}

#[test]
fn stores_tokens_and_single_deliveries() {
    let mut counter = StoreCounter::new();
    let first = counter.next_store().unwrap();
    let second = counter.next_store().unwrap();
    assert_ne!(first, second);
    assert_ne!(first, 0);
    let mut shot = OneShot::new();
    assert!(shot.finish());
    assert!(!shot.finish());
    let mut set = ClosingSet::new();
    set.mark_explicitly_closing(7);
    set.mark_explicitly_closing(7);
    assert!(set.is_explicitly_closing(7));
    assert!(!set.is_explicitly_closing(8));
    set.clear_explicitly_closing(7);
    assert!(!set.is_explicitly_closing(7));
}

#[test]
fn jobs_are_bounded() {
    assert_eq!(admit_job(MAX_JOBS - 1, false), Ok(()));
    assert_eq!(admit_job(MAX_JOBS, false), Err(HubError::Quota));
    assert_eq!(admit_job(0, true), Err(HubError::Closed));
    assert_eq!(count_unfinished(&vec![true, false, false]), 2);
    let submit = check_submission;
    assert_eq!(
        submit(Some(WebviewJob::Open), 0, 0, false),
        Ok(WebviewJob::Open)
    );
    assert_eq!(
        submit(Some(WebviewJob::Open), 1, MAX_JOBS, true),
        Err(HubError::Invalid)
    );
    assert_eq!(submit(None, 0, 0, false), Err(HubError::Invalid));
    assert_eq!(submit(None, 0, MAX_JOBS, false), Err(HubError::Quota));
    assert!(revokes_view(WebviewJob::Load));
    assert!(!revokes_view(WebviewJob::Capture));
}

#[test]
fn jobs_that_fail_never_complete() {
    assert_eq!(job_terminal(&WebviewError::Cancelled), Terminal::Cancelled);
    assert_eq!(job_terminal(&WebviewError::TimedOut), Terminal::TimedOut);
    assert_eq!(job_terminal(&WebviewError::WindowClosed), Terminal::Closed);
    assert_eq!(job_terminal(&WebviewError::CaptureBusy), Terminal::Rejected);
    assert_eq!(dropped_terminal(true), Terminal::Trapped);
    assert_eq!(dropped_terminal(false), Terminal::Cancelled);
    assert_eq!(settle_wait(JobWait::Done), Ok(()));
    assert_eq!(settle_wait(JobWait::Cancelled), Err(WebviewError::Cancelled));
    assert_eq!(settle_wait(JobWait::TimedOut), Err(WebviewError::TimedOut));
    assert_eq!(
        settle_wait(JobWait::Abandoned),
        Err(WebviewError::WindowClosed)
    );
    assert_eq!(
        settle_wait(JobWait::Failed(NativeWebviewError::InvalidUrl)),
        Err(WebviewError::InvalidUrl)
    );
    assert_eq!(drain_step(0, 0, 0, SHUTDOWN_WAIT_MS), DrainStep::Drained);
    assert_eq!(drain_step(1, 0, 0, 29_999), DrainStep::Wait);
    assert_eq!(drain_step(0, 1, 0, 30_000), DrainStep::Late);
    assert_eq!(drain_step(0, 0, 1, 0), DrainStep::Wait);
    assert_eq!(shutdown_outcome(None, true, false), Ok(()));
    assert!(shutdown_outcome(None, true, true).is_err());
    assert!(shutdown_outcome(None, false, false).is_err());
    assert!(shutdown_outcome(Some(host_failure("x")), true, false).is_err());
}

/// The stages that a job goes through when everything succeeds.
fn stages(job: WebviewJob) -> Vec<JobStage> {
    let mut seen = vec![JobStage::Begin];
    while seen.last() != Some(&JobStage::Done) {
        seen.push(execute(job, seen[seen.len() - 1], true));
    }
    seen
}

#[test]
fn jobs_go_through_their_stages() {
    assert_eq!(
        stages(WebviewJob::Open),
        [
            JobStage::Begin,
            JobStage::Parse,
            JobStage::OpenNative,
            JobStage::TakeTerminal,
            JobStage::Store,
            JobStage::Watch,
            JobStage::Publish,
            JobStage::Done
        ]
    );
    assert_eq!(
        stages(WebviewJob::Load),
        [
            JobStage::Begin,
            JobStage::TakeLoad,
            JobStage::AwaitLoad,
            JobStage::FinishLoad,
            JobStage::Done
        ]
    );
    assert_eq!(
        stages(WebviewJob::Capture),
        [
            JobStage::Begin,
            JobStage::Capture,
            JobStage::AwaitCapture,
            JobStage::Done
        ]
    );
    let closing = stages(WebviewJob::Close);
    assert_eq!(
        closing[closing.len() - 2],
        JobStage::ClearClosing { failed: false }
    );
    assert_eq!(
        execute(WebviewJob::Capture, JobStage::AwaitCapture, false),
        JobStage::FinishLate
    );
}

#[test]
fn a_failed_close_still_clears_its_note() {
    for stage in [
        JobStage::TakeNative,
        JobStage::TakeClosed,
        JobStage::AskClose,
        JobStage::AwaitClosed,
    ] {
        let next = execute(WebviewJob::Close, stage, false);
        assert_eq!(next, JobStage::ClearClosing { failed: true });
        assert_eq!(
            execute(WebviewJob::Close, next, true),
            JobStage::Failed
        );
    }
    assert_eq!(
        execute(WebviewJob::Close, JobStage::Begin, false),
        JobStage::Failed
    );
    assert_eq!(
        stage_failure(JobStage::Begin),
        Some(WebviewError::Cancelled)
    );
    assert_eq!(
        stage_failure(JobStage::TakeNative),
        Some(WebviewError::WindowClosed)
    );
    assert_eq!(stage_failure(JobStage::AwaitLoad), None);
}

#[test]
fn a_view_that_cannot_be_opened_is_withdrawn() {
    assert_eq!(open_webview(OpenStage::Parse, false), OpenStage::Failed);
    assert_eq!(
        open_webview(OpenStage::OpenNative, false),
        OpenStage::Withdraw
    );
    assert_eq!(open_webview(OpenStage::Withdraw, true), OpenStage::Failed);
    let mut stage = OpenStage::Parse;
    let mut steps = 0;
    while stage != OpenStage::Done {
        stage = open_webview(stage, true);
        steps += 1;
    }
    assert_eq!(steps, 9);
    let (terminal, error) = open_failure(NativeWebviewError::WindowClosed);
    assert_eq!(terminal, Terminal::Closed);
    assert_eq!(error, WebviewError::WindowClosed);
}

#[test]
fn ends_that_came_before_are_not_lost() {
    assert_eq!(after_load(Terminal::Completed), None);
    assert_eq!(after_load(Terminal::TimedOut), Some(Terminal::TimedOut));
    assert!(matches!(
        first_look(Ok(Some(Terminal::Closed))),
        TerminalStep::Report { error: WebviewError::WindowClosed }
    ));
    assert!(matches!(first_look(Ok(None)), TerminalStep::Wait));
    assert!(matches!(
        first_look(Err(HubError::Quota)),
        TerminalStep::Report { error: WebviewError::HostFailure(_) }
    ));
    assert!(matches!(after_waiting(Ok(true)), TerminalStep::Look));
    assert!(matches!(
        after_waiting(Ok(false)),
        TerminalStep::RevokeAndLook
    ));
    assert!(matches!(
        after_waiting(Err(HubError::Closed)),
        TerminalStep::Look
    ));
    assert!(matches!(
        after_waiting(Err(HubError::Stale)),
        TerminalStep::Report { error: WebviewError::WindowClosed }
    ));
}

#[test]
fn a_close_reads_its_result_before_the_resource_goes() {
    let mut stage = CloseStage::Begin;
    let mut seen = Vec::new();
    while stage != CloseStage::Done {
        seen.push(stage);
        stage = close(stage, true);
    }
    assert_eq!(
        seen,
        [
            CloseStage::Begin,
            CloseStage::Mark,
            CloseStage::TakeNative,
            CloseStage::TakeClosed,
            CloseStage::AskClose,
            CloseStage::Await,
            CloseStage::Finish,
            CloseStage::Observe,
            CloseStage::GiveBack { failed: false },
            CloseStage::Clear { failed: false },
        ]
    );
    assert_eq!(close(CloseStage::AskClose, false), CloseStage::Withdraw);
    assert_eq!(
        close(CloseStage::TakeNative, false),
        CloseStage::Clear { failed: true }
    );
    assert_eq!(
        close(CloseStage::Observe, false),
        CloseStage::GiveBack { failed: true }
    );
    assert_eq!(
        close(CloseStage::Clear { failed: true }, true),
        CloseStage::Failed
    );
    assert_eq!(close_terminal(true), Terminal::Completed);
    assert_eq!(close_terminal(false), Terminal::Closed);
}

#[test]
fn a_capture_that_is_late_is_still_looked_at() {
    let next = capture_visible_png;
    let ok = CaptureEvent::Succeeded;
    assert_eq!(next(CaptureStage::CheckLimits, ok), CaptureStage::Begin);
    assert_eq!(
        next(CaptureStage::CheckLimits, CaptureEvent::Failed),
        CaptureStage::Failed
    );
    assert_eq!(next(CaptureStage::Begin, ok), CaptureStage::Ask);
    assert_eq!(
        next(CaptureStage::Ask, CaptureEvent::Failed),
        CaptureStage::Withdraw
    );
    assert_eq!(next(CaptureStage::Withdraw, ok), CaptureStage::Failed);
    assert_eq!(
        next(CaptureStage::Wait, CaptureEvent::Late),
        CaptureStage::FinishLate
    );
    assert_eq!(next(CaptureStage::FinishLate, ok), CaptureStage::Observe);
    assert_eq!(next(CaptureStage::Wait, ok), CaptureStage::Observe);
    assert_eq!(next(CaptureStage::Observe, ok), CaptureStage::Done);
}

#[test]
fn captures_have_limits_and_results() {
    let limits = ViewportCaptureLimits::default();
    assert_eq!(check_limits(limits), Ok(()));
    assert_eq!(
        check_limits(ViewportCaptureLimits {
            maximum_pixels: 0,
            ..limits
        }),
        Err(WebviewError::CapturePixelLimit)
    );
    assert_eq!(
        check_limits(ViewportCaptureLimits {
            maximum_encoded_bytes: 0,
            ..limits
        }),
        Err(WebviewError::CaptureByteLimit)
    );
    assert_eq!(
        map_capture(CaptureError::InvalidDimensions),
        WebviewError::CapturePixelLimit
    );
    assert_eq!(
        map_capture(CaptureError::BlobLimit),
        WebviewError::CaptureByteLimit
    );
    assert_eq!(
        map_capture(CaptureError::InvalidPng),
        WebviewError::CaptureFailed
    );
    assert_eq!(map_lease(HubError::Quota), WebviewError::CaptureBusy);
    assert_eq!(map_lease(HubError::Stale), WebviewError::WindowClosed);
    let completed = || Ok(Some(Terminal::Completed));
    assert_eq!(capture_result(completed(), None, Some(9)), Ok(9));
    assert_eq!(
        capture_result(completed(), None, None),
        Err(WebviewError::HostFailure(
            "capture omitted its snapshot".to_string()
        ))
    );
    assert_eq!(
        capture_result(
            Ok(Some(Terminal::Rejected)),
            Some(CaptureError::PixelLimit),
            None
        ),
        Err(WebviewError::CapturePixelLimit)
    );
    assert_eq!(
        capture_result(Ok(None), None, None),
        Err(WebviewError::HostFailure(
            "capture did not complete".to_string()
        ))
    );
}

#[test]
fn snapshots_are_read_to_their_end() {
    let mut snapshot = WebviewSnapshot::new(vec![1, 2, 3, 4, 5], 9);
    assert_eq!(snapshot.read_chunk(2).unwrap().bytes, [1, 2]);
    assert_eq!(
        snapshot.read_chunk(0).unwrap_err(),
        WebviewError::CaptureByteLimit
    );
    assert_eq!(
        snapshot.read_chunk(10).unwrap_err(),
        WebviewError::HostFailure("webview operation quota exhausted".to_string())
    );
    assert_eq!(snapshot.read_chunk(9).unwrap().bytes, [3, 4, 5]);
    assert!(snapshot.read_chunk(9).unwrap().bytes.is_empty());
    snapshot.revoke();
    assert_eq!(
        snapshot.read_chunk(0).unwrap_err(),
        WebviewError::CaptureByteLimit
    );
    assert_eq!(
        snapshot.read_chunk(9).unwrap_err(),
        WebviewError::WindowClosed
    );
    let mut table = CaptureTable::new();
    table.begin(1, 100);
    table.begin(2, 200);
    table.begin(3, 100);
    table.begin(4, 100);
    assert!(table.keeps_cancellation(3));
    assert!(table.finish(3));
    assert!(!table.keeps_cancellation(3));
    assert!(table.keeps_cancellation(4));
    assert!(!table.finish(3));
    assert_eq!(table.cancel_for_view(100), [1, 4]);
    assert!(table.cancel_for_view(100).is_empty());
    assert_eq!(table.cancel_for_view(200), [2]);
}

#[test]
fn dropped_requests_leave_what_a_guest_asked_for() {
    let walk = |guest_owned, observed| {
        let mut stages = vec![RequestStage::Cancel];
        while *stages.last().unwrap() != RequestStage::Done {
            let next = drop_request(*stages.last().unwrap(), guest_owned, observed);
            stages.push(next);
        }
        stages
    };
    assert_stages(&walk(true, Ok(Some(Some(5)))), &[RequestStage::Forget]);
    assert_stages(
        &walk(false, Ok(Some(Some(5)))),
        &[
            RequestStage::Look,
            RequestStage::Reclaim { image: 5 },
            RequestStage::Forget,
        ],
    );
    for observed in [Ok(Some(None)), Ok(None), Err(HubError::Closed)] {
        assert_stages(
            &walk(false, observed),
            &[RequestStage::Look, RequestStage::Forget],
        );
    }
    assert_eq!(dropped_request_terminal(), Terminal::Cancelled);
}

fn assert_stages(walked: &[RequestStage], between: &[RequestStage]) {
    assert_eq!(&walked[1..walked.len() - 1], between);
}

#[test]
fn waits_have_limits() {
    assert_eq!(wait_limit(JobStage::AwaitLoad), Some(30_000));
    assert_eq!(wait_limit(JobStage::AwaitCapture), Some(30_000));
    assert_eq!(wait_limit(JobStage::AwaitClosed), Some(JOB_WAIT_MS));
    assert_eq!(wait_limit(JobStage::OpenNative), None);
    assert_eq!(after_capture_wait(Ok(true)), (CaptureEvent::Succeeded, None));
    assert_eq!(after_capture_wait(Ok(false)), (CaptureEvent::Late, None));
    assert_eq!(
        after_capture_wait(Err(HubError::Closed)),
        (CaptureEvent::Succeeded, None)
    );
    assert_eq!(
        after_capture_wait(Err(HubError::Stale)),
        (CaptureEvent::Failed, Some(WebviewError::WindowClosed))
    );
}

#[test]
fn png_header_and_pixel_budget_are_checked() {
    let mut header = [0; 24];
    assert_eq!(check_png(&header, 64), Err(CaptureError::InvalidPng));
    header[..16].copy_from_slice(b"\x89PNG\r\n\x1a\n\0\0\0\rIHDR");
    header[16..20].copy_from_slice(&8_u32.to_be_bytes());
    header[20..24].copy_from_slice(&8_u32.to_be_bytes());
    assert_eq!(check_png(&header, 64), Ok(()));
    assert_eq!(check_png(&header, 63), Err(CaptureError::PixelLimit));
    assert_eq!(
        check_pixels(u64::MAX, 2, u64::MAX),
        Err(CaptureError::PixelLimit)
    );
    let whole = EncoderState::Whole;
    assert_eq!(check_capture(whole, false, &header, 64), Ok(()));
    assert_eq!(capture_outcome(whole, false, &header, 64, Ok(5)), Ok(5));
    for (encoder, host_failed, finished, error) in [
        (whole, true, Ok(5), CaptureError::NativeFailure),
        (EncoderState::Lost, false, Ok(5), CaptureError::NativeFailure),
        (EncoderState::Taken, true, Ok(5), CaptureError::Cancelled),
        (EncoderState::Failed(HubError::Closed), true, Ok(5), CaptureError::Cancelled),
        (EncoderState::Failed(HubError::Quota), false, Ok(5), CaptureError::BlobLimit),
        (whole, false, Err(HubError::Invalid), CaptureError::Cancelled),
        (whole, false, Err(HubError::Quota), CaptureError::BlobLimit),
    ] {
        assert_eq!(
            capture_outcome(encoder, host_failed, &header, 64, finished),
            Err(error)
        );
    }
    assert_eq!(seek_status(3, 0, true, Some(3)), Ok(3));
    assert_eq!(
        seek_status(-1, 0, true, Some(0)),
        Err(StreamStatus::InvalidArgument)
    );
    assert_eq!(seek_status(3, 1, false, Some(3)), Err(StreamStatus::Fail));
    assert_eq!(
        seek_status(3, 2, true, None),
        Err(StreamStatus::InvalidArgument)
    );
    assert_eq!(stat_status(true, Some(1)), Err(StreamStatus::NullPointer));
    assert_eq!(stat_status(false, None), Err(StreamStatus::Fail));
    assert_eq!(stat_status(false, Some(1)), Ok(1));
    assert_eq!(map_capture_hub(HubError::Quota), CaptureError::BlobLimit);
}

#[test]
fn the_start_of_an_image_is_kept_however_it_is_written() {
    let mut header = [0; 24];
    record_header(&mut header, 20, &[1, 2, 3, 4, 5, 6]);
    record_header(&mut header, 0, &[9; 4]);
    record_header(&mut header, 2, &[8]);
    record_header(&mut header, u64::MAX, &[7]);
    assert_eq!(&header[..5], &[9, 9, 8, 9, 0]);
    assert_eq!(&header[20..], &[1, 2, 3, 4]);
    assert_eq!(check_viewport(0, 0, 10, 10, 100), Ok(()));
    assert_eq!(
        check_viewport(0, 0, 10, 10, 99),
        Err(CaptureError::PixelLimit)
    );
    assert_eq!(
        check_viewport(10, 0, 0, 10, 100),
        Err(CaptureError::PixelLimit)
    );
    assert_eq!(
        check_viewport(i32::MIN, 0, i32::MAX, 1, u64::MAX),
        Ok(())
    );
    assert_eq!(write_status(true, 1, true), (StreamStatus::NullPointer, 0));
    assert_eq!(write_status(true, 0, true), (StreamStatus::Done, 0));
    assert_eq!(write_status(false, 4, false), (StreamStatus::Fail, 0));
    assert_eq!(write_status(false, 4, true), (StreamStatus::Done, 4));
    let mut header = [0; 24];
    let mut write = |bytes: Option<&[u8]>, count, position, accepted| {
        let answer = write_bytes(&mut header, count, bytes, position, accepted);
        (answer, header[..4].to_vec())
    };
    let ab: Option<&[u8]> = Some(&[1, 2]);
    assert_eq!(
        write(ab, 2, Some(1), true),
        ((StreamStatus::Done, 2), vec![0, 1, 2, 0])
    );
    for (bytes, count, position, accepted, status) in [
        (ab, 2, Some(2), false, StreamStatus::Fail),
        (ab, 2, None, true, StreamStatus::Fail),
        (None, 2, Some(2), true, StreamStatus::NullPointer),
        (None, 0, Some(2), true, StreamStatus::Done),
    ] {
        assert_eq!(
            write(bytes, count, position, accepted),
            ((status, 0), vec![0, 1, 2, 0])
        );
    }
    assert_eq!(seek_origin(3, 0), Ok(SeekOrigin::Start { offset: 3 }));
    assert_eq!(seek_origin(-3, 0), Err(StreamStatus::InvalidArgument));
    assert_eq!(seek_origin(-3, 1), Ok(SeekOrigin::Current { offset: -3 }));
    assert_eq!(seek_origin(-3, 2), Ok(SeekOrigin::End { offset: -3 }));
    assert_eq!(seek_origin(0, 3), Err(StreamStatus::InvalidArgument));
}

fn facts(nvidia: bool, x11_backend: bool, already_set: &[&str]) -> HostFacts {
    HostFacts {
        nvidia,
        x11_backend,
        already_set: already_set
            .iter()
            .map(|value| (*value).to_owned())
            .collect(),
    }
}

#[test]
fn environment_decision_table_preserves_user_values() {
    assert_eq!(
        environment_overrides(&facts(false, false, &[])),
        ["JSC_useSharedArrayBuffer"]
    );
    let x11_nvidia = environment_overrides(&facts(true, true, &[]));
    assert!(x11_nvidia.contains(&"__NV_DISABLE_EXPLICIT_SYNC"));
    assert!(x11_nvidia.contains(&"WEBKIT_DISABLE_DMABUF_RENDERER"));
    assert!(!environment_overrides(&facts(true, false, &[]))
        .contains(&"WEBKIT_DISABLE_DMABUF_RENDERER"));
    assert!(!environment_overrides(&facts(
        true,
        true,
        &["JSC_useSharedArrayBuffer", "WEBKIT_DISABLE_DMABUF_RENDERER"],
    ))
    .contains(&"JSC_useSharedArrayBuffer"));
}

#[test]
fn the_first_backend_decides() {
    assert!(detect_x11("", false));
    assert!(!detect_x11("", true));
    assert!(detect_x11(" X11 ,wayland", true));
    assert!(!detect_x11("wayland,x11", false));
}

#[test]
fn repeated_views_and_scale_changes_use_original_desktop_dpi() {
    let mut correction = Correction::default();
    assert_eq!(correction.update(172_032, 2), 86_016);
    assert_eq!(correction.update(86_016, 2), 86_016);
    assert_eq!(correction.update(86_016, 1), 172_032);
    assert_eq!(correction.update(172_032, 2), 86_016);
}

#[test]
fn observed_desktop_changes_replace_original_dpi() {
    let mut correction = Correction::default();
    assert_eq!(correction.update(172_032, 2), 86_016);
    assert_eq!(correction.update(196_608, 2), 98_304);
    assert_eq!(correction.update(98_304, 2), 98_304);
}

#[test]
fn unknown_dpi_keeps_fallback_across_views() {
    let mut correction = Correction::default();
    assert_eq!(correction.update(-1, 2), 98_304);
    assert_eq!(correction.update(98_304, 2), 98_304);
    assert_eq!(correction.update(0, 1), 98_304);
}

#[test]
fn recorder_bounds_storage_and_reports_loss() {
    let mut recorder = Recorder::new(1_000);
    for at in 0..600 {
        recorder.record(1_000 + at, "poll", None, None);
    }
    let (events, lost) = recorder.snapshot();
    assert_eq!(events.len(), 512);
    assert_eq!(lost, 88);
    assert!(events
        .windows(2)
        .all(|pair| pair[0].elapsed <= pair[1].elapsed));
}

#[test]
fn records_keep_what_they_are_given() {
    let seen = WebviewTestObservation {
        native_backings: 1,
        live_resources: 2,
        pending_operations: 3,
    };
    let mut recorder = Recorder::new(50);
    recorder.record(20, "early", Some(4), Some(seen));
    recorder.record(80, "late", None, None);
    let (events, lost) = recorder.snapshot();
    assert_eq!(lost, 0);
    assert_eq!(events[0].elapsed, 0);
    assert_eq!(events[0].opcode, Some(4));
    assert_eq!(events[0].observation, Some(seen));
    assert_eq!(events[1].elapsed, 30);
    assert_eq!(events[1].phase, "late");
}
