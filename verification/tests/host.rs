use kernal_api::drain::{
    kill_drain_timeout, parse_u64, DEFAULT_KILL_DRAIN_TIMEOUT_MS, KILL_DRAIN_TIMEOUT_ENV,
};
use kernal_api::host::{HostError, HostErrorKind};
use kernal_api::linux::{
    gnu_build_id_from_notes, observer_backend, unix_signal_raw, ObserverCategory, ObserverScope,
    ObserverSupport, UnixSignalKind,
};
use kernal_api::paths::{path_file_name, path_join, path_parent, same_path};
use kernal_api::process_adapter::{
    binds_to_spawner, bounded_process_error, bounded_request, builder, check_bounded_owner, inspect_error_kind, kills_child,
    output_event, owner_to_watch, post_exit_grace, process_capture_error, process_error_to_io,
    session_options, unix_exit, windows_exit, BoundedProcessError, ChildPid, LifetimeBinding, LifetimeEnforcement,
    LifetimeOwner, ProcessCaptureError, ProcessFailure, ProcessOutputChunk,
    ProcessOutputCompletion, ProcessOutputEvent, ProcessPostExitDrain, ProcessSessionOptions,
    SessionEvent, SpawnSpec, StreamKind, StreamMode,
};
use kernal_api::profile::pprof::{
    Function, Label, Line, Location, Mapping, Profile, Sample, ValueType,
};
use kernal_api::pty::{next_teardown, write_available, PtyCommand, PtyWrite, TeardownStep};
use kernal_api::runtime::{DiagnosticsConfig, DiagnosticsInstallError};
use kernal_api::snapshot::{
    capture, capture_thread, copied_bytes, enumerate, is_sibling, pause_of, plan_stack_copy,
    CaptureKind, SnapshotConfig, SnapshotError,
    SnapshotStats, StackPlan, StackRegion, Suspension,
};
use kernal_api::terminal_style::{
    console_result, console_step, ConsoleStep, Foreground, StyledText,
};
use kernal_api::text::{
    check_similarity, SimilarityError, MAX_SIMILARITY_INPUT_BYTES, MAX_SIMILARITY_WORK,
};
use kernal_api::windows::process::ProcessInspectErrorKind;

fn native(code: i32) -> HostError {
    HostError::native(HostErrorKind::Other, code)
}

// Linux.

#[test]
fn unix_signal_numbers_are_positive_and_distinct() {
    let interrupt = unix_signal_raw(UnixSignalKind::Interrupt);
    let terminate = unix_signal_raw(UnixSignalKind::Terminate);
    let kill = unix_signal_raw(UnixSignalKind::Kill);
    assert!(interrupt > 0 && terminate > 0 && kill > 0);
    assert_ne!(interrupt, terminate);
    assert_ne!(terminate, kill);
    assert_eq!((interrupt, terminate, kill), (2, 15, 9));
}

#[test]
fn observer_matrix_reports_every_scope_and_category() {
    for (scope, category, support, backend) in [
        (
            ObserverScope::SystemWide,
            ObserverCategory::File,
            ObserverSupport::Unavailable,
            "seccomp-user-notify",
        ),
        (
            ObserverScope::SystemWide,
            ObserverCategory::Network,
            ObserverSupport::Unavailable,
            "ebpf",
        ),
        (
            ObserverScope::SystemWide,
            ObserverCategory::Process,
            ObserverSupport::Unavailable,
            "seccomp-user-notify",
        ),
        (
            ObserverScope::LaunchedProcessTree,
            ObserverCategory::File,
            ObserverSupport::Partial,
            "proc-fd-snapshot",
        ),
        (
            ObserverScope::LaunchedProcessTree,
            ObserverCategory::Network,
            ObserverSupport::Unavailable,
            "none",
        ),
        (
            ObserverScope::LaunchedProcessTree,
            ObserverCategory::Process,
            ObserverSupport::Supported,
            "subreaper-proc-poll",
        ),
    ] {
        let result = observer_backend(scope, category);
        assert_eq!(result.support, support, "{scope:?}/{category:?}");
        assert_eq!(result.backend, backend, "{scope:?}/{category:?}");
        assert!(!result.reason.is_empty(), "{scope:?}/{category:?}");
    }
}

#[test]
fn gnu_note_parser_accepts_build_ids_and_rejects_malformed_notes() {
    let mut note = Vec::new();
    note.extend_from_slice(&4_u32.to_ne_bytes());
    note.extend_from_slice(&3_u32.to_ne_bytes());
    note.extend_from_slice(&3_u32.to_ne_bytes());
    note.extend_from_slice(b"GNU\0");
    note.extend_from_slice(&[1, 2, 3, 0]);
    assert_eq!(gnu_build_id_from_notes(&note), Some(vec![1, 2, 3]));

    let mut other = note.clone();
    other[8..12].copy_from_slice(&1_u32.to_ne_bytes());
    assert_eq!(gnu_build_id_from_notes(&other), None);
    assert_eq!(gnu_build_id_from_notes(&note[..note.len() - 1]), None);
    assert_eq!(gnu_build_id_from_notes(&[]), None);
    other.extend_from_slice(&note);
    assert_eq!(gnu_build_id_from_notes(&other), Some(vec![1, 2, 3]));
    let mut huge = note.clone();
    huge[0..8].copy_from_slice(&[0xff; 8]);
    assert_eq!(gnu_build_id_from_notes(&huge), None);
}

// Paths.

#[test]
fn paths_are_taken_apart_as_the_standard_library_does() {
    for path in [
        "", "/", "//", "a", "a/", "a//b", "/a", "/a/", "/a/b.so.1", "./a", "a/.", "a/..", "..",
        "a/./b", "/.", "/..", "a/b/.//", ".hidden",
    ] {
        let std = std::path::Path::new(path);
        let name = std.file_name().map(|name| name.to_str().unwrap().to_string());
        let parent = std.parent().map(|parent| parent.to_str().unwrap().to_string());
        assert_eq!(path_file_name(path), name, "name of {path:?}");
        match (path_parent(path), parent) {
            (Some(ours), Some(theirs)) => {
                assert!(same_path(&ours, &theirs), "parent of {path:?}: {ours:?}")
            }
            (ours, theirs) => assert_eq!(ours, theirs, "parent of {path:?}"),
        }
        for name in ["x", "/x", ""] {
            assert_eq!(
                path_join(path, name),
                std.join(name).to_str().unwrap(),
                "{path:?} with {name:?}"
            );
        }
        for other in ["a", "a/b", "/a", "/", "", "..", "/a/b.so.1/"] {
            assert_eq!(
                same_path(path, other),
                std == std::path::Path::new(other),
                "{path:?} and {other:?}"
            );
        }
    }
}

// The process adapter.

#[test]
fn stream_fault_preserves_kind_message_and_native_error() {
    let event = output_event(SessionEvent::StreamError {
        stream: StreamKind::Stderr,
        error: HostError {
            kind: HostErrorKind::PermissionDenied,
            message: "access denied by fixture".to_owned(),
            code: Some(5),
        },
    });

    let ProcessOutputEvent::Completion(ProcessOutputCompletion::StderrError(fault)) = event else {
        panic!("stderr fault must remain a terminal stderr completion");
    };
    assert_eq!(fault.kind(), HostErrorKind::PermissionDenied);
    assert_eq!(fault.message(), "access denied by fixture");
    assert_eq!(fault.raw_os_error(), Some(5));
}

#[test]
fn stream_events_keep_their_stream() {
    assert!(matches!(
        output_event(SessionEvent::Chunk { stream: StreamKind::Stdout, bytes: vec![1] }),
        ProcessOutputEvent::Chunk(ProcessOutputChunk::Stdout(bytes)) if bytes == [1]
    ));
    assert!(matches!(
        output_event(SessionEvent::Chunk { stream: StreamKind::Stderr, bytes: vec![2] }),
        ProcessOutputEvent::Chunk(ProcessOutputChunk::Stderr(bytes)) if bytes == [2]
    ));
    assert!(matches!(
        output_event(SessionEvent::StreamEof(StreamKind::Stdout)),
        ProcessOutputEvent::Completion(ProcessOutputCompletion::StdoutEof)
    ));
    assert!(matches!(
        output_event(SessionEvent::StreamAbandoned(StreamKind::Stderr)),
        ProcessOutputEvent::Completion(ProcessOutputCompletion::StderrAbandoned)
    ));
    assert!(matches!(
        output_event(SessionEvent::StreamError {
            stream: StreamKind::Stdout,
            error: native(1)
        }),
        ProcessOutputEvent::Completion(ProcessOutputCompletion::StdoutError(_))
    ));
    assert_eq!(post_exit_grace(ProcessPostExitDrain::WaitForEof), None);
    assert_eq!(
        post_exit_grace(ProcessPostExitDrain::AbandonAfter { nanos: 5 }),
        Some(5)
    );
}

#[test]
fn lifetimes_are_bound_to_their_owner() {
    let spawner = Some(LifetimeOwner::Spawner);
    let other = Some(LifetimeOwner::Process(7));
    assert!(binds_to_spawner(spawner));
    assert!(!binds_to_spawner(other) && !binds_to_spawner(None));
    assert_eq!(owner_to_watch(other), Some(7));
    assert_eq!(owner_to_watch(spawner), None);
    assert!(check_bounded_owner(None).is_ok() && check_bounded_owner(spawner).is_ok());
    assert!(matches!(
        check_bounded_owner(other),
        Err(BoundedProcessError::Io(error)) if error.kind == HostErrorKind::InvalidInput
    ));
    let mut binding = LifetimeBinding::bind(other, LifetimeEnforcement::Watched, true);
    assert_eq!(binding.enforcement(), Some(LifetimeEnforcement::Watched));
    binding.release();
    assert_eq!(binding.enforcement(), Some(LifetimeEnforcement::Watched));
    assert_eq!(
        LifetimeBinding::bind(None, LifetimeEnforcement::Kernel, false),
        LifetimeBinding::unbound()
    );
    assert_eq!(kills_child(true, Some(3)), Some(3));
    assert_eq!(kills_child(false, Some(3)), None);
    assert_eq!(
        inspect_error_kind(ProcessInspectErrorKind::InvalidPid),
        HostErrorKind::InvalidInput
    );
    assert_eq!(
        inspect_error_kind(ProcessInspectErrorKind::Host),
        HostErrorKind::Other
    );
}

#[test]
fn failures_of_the_substrate_are_mapped() {
    let io = |failure| process_error_to_io(failure, "said so");
    assert_eq!(
        io(ProcessFailure::AlreadyStarted).kind,
        HostErrorKind::AlreadyExists
    );
    assert_eq!(io(ProcessFailure::NotRunning).kind, HostErrorKind::BrokenPipe);
    assert_eq!(io(ProcessFailure::RuntimeContext).kind, HostErrorKind::Other);
    assert_eq!(io(ProcessFailure::Timeout).kind, HostErrorKind::TimedOut);
    assert_eq!(
        io(ProcessFailure::OutputLimitExceeded { limit: 3 }).kind,
        HostErrorKind::FileTooLarge
    );
    assert_eq!(io(ProcessFailure::StdinUnavailable).message, "said so");
    assert_eq!(io(ProcessFailure::Spawn(native(2))).code, Some(2));
    assert!(matches!(
        process_capture_error(ProcessFailure::OutputLimitExceeded { limit: 3 }, "m"),
        ProcessCaptureError::OutputLimitExceeded { limit: 3 }
    ));
    assert!(matches!(
        process_capture_error(ProcessFailure::Io(native(9)), "m"),
        ProcessCaptureError::Io(error) if error.code == Some(9)
    ));
    assert!(matches!(
        bounded_process_error(ProcessFailure::Timeout),
        BoundedProcessError::TimedOut
    ));
    assert!(matches!(
        bounded_process_error(ProcessFailure::Spawn(native(9))),
        BoundedProcessError::Spawn(_)
    ));
    assert!(matches!(
        bounded_process_error(ProcessFailure::StdinUnavailable),
        BoundedProcessError::Io(error)
            if error.message == "bounded command is no longer running"
    ));
    assert!(matches!(
        bounded_process_error(ProcessFailure::AlreadyStarted),
        BoundedProcessError::Io(error) if error.kind == HostErrorKind::AlreadyExists
    ));
}

fn spec(owner: Option<LifetimeOwner>) -> SpawnSpec<&'static str> {
    SpawnSpec {
        program: "sh",
        args: vec!["-c", "true"],
        current_dir: Some("/"),
        env: vec![("A", "1")],
        clear_env: true,
        stdin: StreamMode::Piped,
        stdout: StreamMode::Inherit,
        stderr: StreamMode::Null,
        create_process_group: false,
        lifetime_owner: owner,
    }
}

#[test]
fn requests_are_handed_on() {
    let request = builder(spec(Some(LifetimeOwner::Spawner)));
    assert_eq!(request.program, "sh");
    assert_eq!(request.args, ["-c", "true"]);
    assert_eq!(request.env, [("A", "1")]);
    assert_eq!(request.current_dir, Some("/"));
    assert!(request.clear_env && request.kill_when_owner_dies);
    assert_eq!(request.stdin, StreamMode::Piped);
    assert!(!builder(spec(Some(LifetimeOwner::Process(3)))).kill_when_owner_dies);
    let bounded = bounded_request(spec(None)).unwrap();
    assert_eq!(bounded.stdin, StreamMode::Null);
    assert_eq!(bounded.stdout, StreamMode::Piped);
    assert!(bounded.create_process_group && !bounded.kill_when_owner_dies);
    assert!(bounded_request(spec(Some(LifetimeOwner::Process(3)))).is_err());
    let options = session_options(ProcessSessionOptions {
        max_queued_chunks: 1,
        max_chunk_bytes: 2,
        post_exit_drain: ProcessPostExitDrain::AbandonAfter { nanos: 3 },
        kill_on_drop: true,
    });
    assert_eq!(options.max_queued_chunks, 1);
    assert_eq!(options.max_chunk_bytes, 2);
    assert_eq!(options.post_exit_grace_nanos, Some(3));
    assert!(options.kill_on_drop);
}

#[test]
fn a_reaped_child_has_no_number() {
    let mut child = ChildPid::started(9);
    child.after_wait(false);
    child.after_capture(Some(&ProcessCaptureError::Io(native(1))));
    assert_eq!(child.pid(), Some(9));
    child.after_capture(Some(&ProcessCaptureError::OutputLimitExceeded { limit: 1 }));
    assert_eq!(child.pid(), None);
    let mut child = ChildPid::started(9);
    child.after_wait(true);
    assert_eq!(child.pid(), None);
}

#[test]
fn exits_keep_the_host_number() {
    let exit = unix_exit(None, Some(15), 15);
    assert_eq!((exit.code, exit.signal, exit.native), (None, Some(15), 15));
    assert_eq!(unix_exit(Some(-1), None, -1).native, u32::MAX);
    assert_eq!(windows_exit(Some(i32::MIN)).native, 0x8000_0000);
    assert_eq!(windows_exit(None).native, 1);
}

// Snapshots.

fn region(address: u64, size: u64, protection: i32) -> StackRegion {
    StackRegion {
        address,
        size,
        protection,
    }
}

#[test]
fn stacks_are_copied_within_their_region() {
    let nothing = StackPlan {
        available: 0,
        want: 0,
    };
    assert_eq!(
        plan_stack_copy(region(100, 50, 3), 120, 1000, 1000),
        StackPlan {
            available: 30,
            want: 30
        }
    );
    assert_eq!(
        plan_stack_copy(region(100, 50, 3), 120, 20, 10),
        StackPlan {
            available: 30,
            want: 10
        }
    );
    assert_eq!(plan_stack_copy(region(100, 50, 2), 120, 20, 10), nothing);
    assert_eq!(plan_stack_copy(region(100, 50, 1), 99, 20, 10), nothing);
    assert_eq!(plan_stack_copy(region(100, 50, 1), 150, 20, 10), nothing);
    assert_eq!(
        plan_stack_copy(region(u64::MAX, 2, 1), u64::MAX, 20, 10),
        nothing
    );
    let plan = StackPlan {
        available: 30,
        want: 10,
    };
    assert_eq!(copied_bytes(plan, Some(1000)), 10);
    assert_eq!(copied_bytes(plan, Some(4)), 4);
    assert_eq!(copied_bytes(plan, None), 0);
    let config = SnapshotConfig {
        max_stack_bytes: 12,
    };
    let scratch = [1, 2, 3, 4, 5, 6, 7, 8, 9, 10, 11, 12];
    let registers = Some((1, 2, 3, None));
    let take = |registers, plan, reported| {
        capture_thread(Some(7), Some(0), registers, plan, reported, &scratch, 9, config).unwrap()
    };
    let (sample, pause) = take(registers, Some(plan), Some(1000)).unwrap();
    assert_eq!(pause, 9);
    assert!(sample.truncated && sample.frames.is_empty());
    assert_eq!(sample.stack_bytes, scratch[..10]);
    assert_eq!(sample.kind, CaptureKind::RawContext);
    assert_eq!(sample.instruction_pointer, 2);
    assert!(take(None, Some(plan), Some(1)).is_none());
    assert!(take(registers, None, Some(1)).is_none());
    assert!(take(registers, Some(plan), Some(0)).is_none());
    assert!(take(registers, Some(plan), None).is_none());
    let unresumed = SnapshotError::Mach {
        operation: "thread_resume",
        code: 5,
    };
    for (tid, resumed, expected) in [
        (Some(7), Some(5), Err(unresumed)),
        (Some(7), None, Ok(())),
        (None, Some(5), Ok(())),
    ] {
        let outcome = capture_thread(tid, resumed, None, None, None, &[], 0, config);
        assert_eq!(outcome.map(|sample| assert!(sample.is_none())), expected);
    }
    assert_eq!(enumerate(0), Ok(()));
    assert_eq!(
        enumerate(3),
        Err(SnapshotError::Mach {
            operation: "task_threads",
            code: 3
        })
    );
}

#[test]
fn snapshots_account_for_every_thread() {
    let config = SnapshotConfig { max_stack_bytes: 4 };
    let plan = StackPlan {
        available: 2,
        want: 2,
    };
    let outcome = |tid, pause| {
        capture_thread(
            Some(tid),
            Some(0),
            Some((1, 2, 3, None)),
            Some(plan),
            Some(2),
            &[8, 9],
            pause,
            config,
        )
    };
    let snapshot = capture(
        vec![
            outcome(1, 5),
            Ok(None),
            outcome(3, u128::MAX),
            outcome(4, 1),
        ],
        config,
    )
    .unwrap();
    assert_eq!(
        snapshot.stats,
        SnapshotStats {
            threads_total: 4,
            threads_captured: 3,
            threads_dropped: 1,
            pause_nanos: u64::MAX
        }
    );
    let tids: Vec<u64> = snapshot.threads.iter().map(|thread| thread.os_tid).collect();
    assert_eq!(tids, [1, 3, 4]);
    assert!(!snapshot.frames_resolved);
    assert_eq!(
        capture(vec![outcome(1, 5), outcome(2, 6)], config)
            .unwrap()
            .stats
            .pause_nanos,
        11
    );
    let unresumed = |code| SnapshotError::Mach {
        operation: "thread_resume",
        code,
    };
    let failed = capture(
        vec![outcome(1, 5), Err(unresumed(4)), Err(unresumed(6))],
        config,
    );
    assert_eq!(failed.unwrap_err(), unresumed(4));
    assert_eq!(pause_of(u128::MAX), u64::MAX);
    assert_eq!(pause_of(12), 12);
    assert!(!is_sibling(Some(1), 10, Some(1), 11));
    assert!(is_sibling(Some(1), 10, None, 10));
    assert!(!is_sibling(None, 10, Some(2), 10));
    assert!(is_sibling(None, 10, Some(1), 11));
    assert!(Suspension::new(false).is_none());
    let mut suspension = Suspension::new(true).unwrap();
    suspension.resume(false);
    assert!(suspension.resumes_on_drop());
    suspension.resume(true);
    assert!(!suspension.resumes_on_drop());
}

// Small things.

#[test]
fn drain_timeouts_are_configured() {
    assert_eq!(KILL_DRAIN_TIMEOUT_ENV, "KERNAL_API_KILL_DRAIN_TIMEOUT_MS");
    assert_eq!(kill_drain_timeout(Some("250")), 250);
    assert_eq!(
        kill_drain_timeout(Some("soon")),
        DEFAULT_KILL_DRAIN_TIMEOUT_MS
    );
    assert_eq!(kill_drain_timeout(None), 2_000);
    for text in [
        "", "0", "007", "+5", "-5", " 5", "5 ", "18446744073709551615", "18446744073709551616",
        "+", "9x", "\u{664}",
    ] {
        assert_eq!(parse_u64(text), text.parse::<u64>().ok(), "{text:?}");
    }
}

#[test]
fn terminals_write_what_fits_and_come_down_in_order() {
    let mut command = PtyCommand::new("sh".to_string());
    command.arguments.push("-c".to_string());
    assert_eq!(command.into_argv().0, ["sh", "-c"]);
    assert!(matches!(write_available(Ok(4)), PtyWrite::Written(4)));
    assert!(matches!(
        write_available(Err(HostError::new(HostErrorKind::Unsupported, "no"))),
        PtyWrite::WriteAll
    ));
    assert!(matches!(
        write_available(Err(HostError::new(HostErrorKind::BrokenPipe, "gone"))),
        PtyWrite::Fail(_)
    ));
    let mut step = TeardownStep::KillGroup;
    let mut seen = Vec::new();
    while step != TeardownStep::Done {
        seen.push(step);
        step = next_teardown(step);
    }
    assert_eq!(
        seen,
        [
            TeardownStep::KillGroup,
            TeardownStep::KillChild,
            TeardownStep::ReapChild,
            TeardownStep::ReleaseTerminal
        ]
    );
}

#[test]
fn diagnostics_are_configured() {
    let config = DiagnosticsConfig::default();
    assert_eq!(config.bind(), "127.0.0.1:6669");
    assert_eq!(config.publish_interval(), None);
    assert_eq!(config.recording_path(), None);
    let config = DiagnosticsConfig::new("[::1]:1".to_string())
        .with_publish_interval(5)
        .with_recording_path("/r".to_string());
    assert_eq!(config.bind(), "[::1]:1");
    assert_eq!(config.publish_interval(), Some(5));
    assert_eq!(config.recording_path(), Some("/r".to_string()));
    assert_eq!(
        DiagnosticsInstallError::InvalidBind("x".to_string()).message(),
        "invalid async diagnostics bind address: x"
    );
    assert_eq!(
        DiagnosticsInstallError::Subscriber("x".to_string()).message(),
        "could not install the async diagnostics subscriber: x"
    );
}

#[test]
fn text_is_coloured_only_where_colours_are_on() {
    assert_eq!(
        StyledText::new("x", Foreground::DarkRed, true).render(),
        "\u{1b}[38;5;1mx\u{1b}[39m"
    );
    assert_eq!(StyledText::new("x", Foreground::DarkRed, false).render(), "x");
    assert_eq!(Foreground::White.palette_index(), 15);
    assert!(matches!(
        console_step(false, Ok(0)),
        ConsoleStep::Fail(error) if error.kind == HostErrorKind::NotConnected
    ));
    assert!(matches!(
        console_step(true, Ok(1)),
        ConsoleStep::SetMode { mode: 5 }
    ));
    assert!(matches!(
        console_step(true, Ok(5)),
        ConsoleStep::Ready { ansi: true }
    ));
    assert!(matches!(
        console_step(true, Err(native(6))),
        ConsoleStep::Ready { ansi: false }
    ));
    assert!(console_result(Ok(())).unwrap());
    assert!(!console_result(Err(native(87))).unwrap());
    assert!(console_result(Err(native(5))).is_err());
}

#[test]
fn similarity_is_bounded() {
    let long = "a".repeat(MAX_SIMILARITY_INPUT_BYTES);
    assert_eq!(check_similarity("kitten", "sitting"), Ok(()));
    assert_eq!(
        check_similarity(&format!("{long}b"), ""),
        Err(SimilarityError::InputTooLarge)
    );
    assert_eq!(
        check_similarity(&long, &long),
        Err(SimilarityError::WorkLimitExceeded)
    );
    let side = "a".repeat(1024);
    assert_eq!(1024 * 1024, MAX_SIMILARITY_WORK);
    assert_eq!(check_similarity(&side, &side), Ok(()));
    let wide = "\u{1f600}".repeat(1024);
    assert_eq!(check_similarity(&wide, &side), Ok(()));
    assert!(!SimilarityError::InputTooLarge.message().is_empty());
}

// Profiles.

#[test]
fn profiles_round_trip() {
    let profile = Profile {
        sample_type: vec![ValueType { type_: 1, unit: -2 }],
        sample: vec![Sample {
            location_id: vec![1, 300, u64::MAX],
            value: vec![-1, 0, i64::MIN],
            label: vec![Label {
                key: 1,
                str: 2,
                num: -3,
                num_unit: 4,
            }],
        }],
        mapping: vec![Mapping {
            id: 1,
            memory_start: 0x1000,
            memory_limit: 0x2000,
            file_offset: 0,
            filename: 3,
            build_id: 4,
            has_functions: true,
            has_filenames: false,
            has_line_numbers: true,
            has_inline_frames: false,
        }],
        location: vec![Location {
            id: 1,
            mapping_id: 1,
            address: 0x1010,
            line: vec![Line {
                function_id: 1,
                line: 7,
            }],
            is_folded: true,
        }],
        function: vec![Function {
            id: 1,
            name: 5,
            system_name: 5,
            filename: 6,
            start_line: -7,
        }],
        string_table: vec![String::new(), "cpu".to_string()],
        drop_frames: 1,
        keep_frames: 2,
        time_nanos: 3,
        duration_nanos: 4,
        period_type: Some(ValueType { type_: 0, unit: 0 }),
        period: 10_101_010,
        comment: vec![1],
        default_sample_type: -1,
    };
    let bytes = profile.encode();
    let again = Profile::decode(&bytes).unwrap();
    assert_eq!(again.encode(), bytes);
    assert_eq!(again.sample[0].value, profile.sample[0].value);
    assert_eq!(again.sample[0].location_id, profile.sample[0].location_id);
    assert_eq!(again.string_table, profile.string_table);
    assert!(again.period_type.is_some());
    assert!(again.location[0].is_folded);
    assert_eq!(again.default_sample_type, -1);
    assert!(Profile::decode(&[0x08]).is_err());
}

#[test]
fn profiles_are_written_in_the_published_layout() {
    let profile = Profile {
        sample: vec![Sample {
            location_id: vec![1, 300],
            value: vec![-1],
            label: Vec::new(),
        }],
        string_table: vec![String::new()],
        ..Default::default()
    };
    assert_eq!(
        profile.encode(),
        [
            0x12, 0x11, 0x0a, 0x03, 0x01, 0xac, 0x02, 0x12, 0x0a, 0xff, 0xff, 0xff, 0xff, 0xff,
            0xff, 0xff, 0xff, 0xff, 0x01, 0x32, 0x00
        ]
    );
    // Numbers may come one by one, too.
    let unpacked = [0x12, 0x04, 0x08, 0x01, 0x08, 0x02];
    assert_eq!(
        Profile::decode(&unpacked).unwrap().sample[0].location_id,
        [1, 2]
    );
}
