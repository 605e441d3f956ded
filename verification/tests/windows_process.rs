use kernal_api::host::{HostError, HostErrorKind};
use kernal_api::windows::command_line::{
    build_command_line, compose_command_line, is_cmd_exe, is_cmd_script_switch, quote,
};
use kernal_api::windows::paths::{
    join_units, same_windows_path, windows_file_name, windows_rename,
};
use kernal_api::windows::create::{
    after_attempt, create_job_object, create_pipe_pair, create_process_inner, keeps_thread,
    spawn_sync, try_wait_inner, wait_inner, CreateRequest, CreateStep, SpawnStage, SpawnedState,
};
use kernal_api::windows::environment::{
    build_env_block, merge_environment, EnvEntry, EnvOverride,
};
use kernal_api::windows::executable::{
    candidate_names, file_name, find_in_paths, native_library_name, stem_matches,
    unlock_for_replacement,
};
use kernal_api::windows::ipc::{
    reject_nul, retire_socket_endpoint, LocalSocketListener, LocalSocketStream,
};
use kernal_api::windows::private_dir::{
    apply_dacl_sddl, check_current_sid, check_dacl_length, check_owner_sid,
    create_dir_all_private, ensure_dir_private,
    ensure_owner_private_directory, hardening_outcome, needs_hardening, needs_tightening,
    owner_private_directory, settle_creation, Ancestor,
    DaclUpdateStage, OwnerPrivateDirectoryOutcome,
};
use kernal_api::windows::process::{
    action_open_failure, closes_old_stream, combine_polls, cpu_ticks_for_pid, exit_status,
    exit_wait, filetime, force_kill_result, force_terminate_child_process_group, is_alive,
    native_jobserver_supported, open_failure, peak_rss_bytes_for_pid, priority_class, priority_outcome,
    process_id,
    process_same_executable_path, process_signal_terminate, set_priority_identity,
    tree_rss_bytes_for_pid, watch_open_failure, watchable, ExitWait, NativeJobserver,
    PriorityStep, ProcessEntry, ProcessExitObservation, ProcessIdentityAction,
    ProcessIdentityActionError, ProcessInspectErrorKind, ProcessPriority, SignalPoll,
    WAIT_FAILED,
};
use kernal_api::windows::resources::{
    available_space, fd_exhaustion_error, signals_fd_exhaustion, signals_storage_exhaustion,
    storage_exhaustion_error, total_space, DiskSpace,
};
use kernal_api::windows::security::{
    aces, dacl_is_exact_user_system_file_policy, is_owner_only, owner_only_sddl,
    private_dir_sddl, private_file_sddl, sid_sddl, trustee_is_self_or_admin,
};
use kernal_api::windows::spawn::{
    creation_flags, daemon_creation_flags, drain_step, exit_code_of, needs_own_environment,
    pipe_access, reap_result, resolve_slot, retry_flags, strict_resume_count_is_valid,
    terminate_and_reap, try_wait_result, CreateMode, DrainStep, LaunchStage, PipeDir,
    ShutdownWork, SlotDir, SlotPlan, StdioSource, StrictWorkerCleanupError,
    StrictWorkerLimitError, StrictWorkerLimits, StrictWorkerSpawnError, StrictWorkerSpawnStage,
    StrictWorkerState, CREATE_BREAKAWAY_FROM_JOB, CREATE_NEW_PROCESS_GROUP, CREATE_NO_WINDOW,
    CREATE_SUSPENDED, CREATE_UNICODE_ENVIRONMENT, DETACHED_PROCESS, EXTENDED_STARTUPINFO_PRESENT,
    JOB_OBJECT_LIMIT_ACTIVE_PROCESS, JOB_OBJECT_LIMIT_BREAKAWAY_OK, JOB_OBJECT_LIMIT_JOB_MEMORY,
    JOB_OBJECT_LIMIT_KILL_ON_JOB_CLOSE, JOB_OBJECT_LIMIT_PROCESS_MEMORY, STILL_ACTIVE,
    WAIT_OBJECT_0, WAIT_TIMEOUT,
};
use kernal_api::windows::wide::encode_wide;

fn native(code: i32) -> HostError {
    HostError::native(HostErrorKind::Other, code)
}

fn wide(text: &str) -> Vec<u16> {
    text.encode_utf16().collect()
}

fn texts(list: &[&str]) -> Vec<String> {
    list.iter().map(|text| text.to_string()).collect()
}

// Security.

#[test]
fn protected_trustee_policy_rejects_inheritance_and_everyone() {
    let user = "S-1-5-21-1-2-3-1001";
    let none = Vec::new();
    assert!(is_owner_only(&owner_only_sddl(user), user, &none));
    assert!(is_owner_only(
        "D:P(A;OICI;FA;;;SY)(A;OICI;FA;;;BA)",
        user,
        &none
    ));
    assert!(!is_owner_only("D:(A;OICI;FA;;;SY)", user, &none));
    assert!(!is_owner_only("D:P(A;OICI;FA;;;WD)", user, &none));
    assert!(!is_owner_only("D:PNO_ACCESS_CONTROL", user, &none));
}

#[test]
fn system_alias_and_raw_sid_compare_as_the_same_trustee() {
    let none = Vec::new();
    assert!(trustee_is_self_or_admin("SY", "S-1-5-18", &none));
    assert!(trustee_is_self_or_admin("S-1-5-18", "SY", &none));
    assert!(!trustee_is_self_or_admin("WD", "S-1-5-18", &none));
}

#[test]
fn other_spellings_of_the_user_fit() {
    let aliases = texts(&["LA"]);
    assert!(trustee_is_self_or_admin("LA", "S-1-5-21-1-2-3-500", &aliases));
    assert!(!trustee_is_self_or_admin("LG", "S-1-5-21-1-2-3-500", &aliases));
}

#[test]
fn private_file_dacl_parser_accepts_only_the_expected_inherited_aces() {
    let user_sid = [1, 2, 0, 0, 0, 0, 0, 5, 21, 0, 0, 0, 7, 0, 0, 0];
    let system_sid = [1, 1, 0, 0, 0, 0, 0, 5, 18, 0, 0, 0];
    let mut dacl = vec![2, 0, 0, 0, 2, 0, 0, 0];
    for sid in [&user_sid[..], &system_sid[..]] {
        dacl.extend([0, 0x10]);
        dacl.extend((8 + sid.len() as u16).to_le_bytes());
        dacl.extend(0x001f_01ff_u32.to_le_bytes());
        dacl.extend(sid);
    }
    let dacl_len = dacl.len() as u16;
    dacl[2..4].copy_from_slice(&dacl_len.to_le_bytes());

    assert!(dacl_is_exact_user_system_file_policy(&dacl, &user_sid));
    dacl[9] = 1;
    assert!(!dacl_is_exact_user_system_file_policy(&dacl, &user_sid));
}

#[test]
fn account_identifiers_are_written_out() {
    let sid = [1, 2, 0, 0, 0, 0, 0, 5, 21, 0, 0, 0, 7, 0, 0, 0];
    assert_eq!(sid_sddl(&sid).unwrap(), "S-1-5-21-7");
    assert_eq!(
        private_dir_sddl(&sid).unwrap(),
        "D:P(A;OICI;FA;;;S-1-5-21-7)(A;OICI;FA;;;SY)"
    );
    assert_eq!(
        private_file_sddl(&sid).unwrap(),
        "D:P(A;;FA;;;S-1-5-21-7)(A;;FA;;;SY)"
    );
    assert!(sid_sddl(&sid[..15]).is_err());
    assert!(sid_sddl(&[1]).is_err());
}

#[test]
fn trustees_are_read_from_their_entries() {
    assert_eq!(
        aces("P(A;OICI;FA;;;SY)(A;;FA;;;WD)(broken)"),
        texts(&["SY", "WD"])
    );
    assert!(aces("P").is_empty());
}

#[test]
fn private_directories_match_byte_for_byte() {
    let sid = vec![1, 2, 3];
    let dacl = vec![9, 9];
    assert!(owner_private_directory(true, &sid, &sid, &dacl, &dacl));
    assert!(!owner_private_directory(false, &sid, &sid, &dacl, &dacl));
    assert!(!owner_private_directory(true, &sid, &vec![1, 2], &dacl, &dacl));
    assert!(!owner_private_directory(true, &sid, &sid, &dacl, &vec![9, 8]));
}

#[test]
fn hardening_is_judged_by_a_second_look() {
    assert!(needs_hardening(&Ok(false)));
    assert!(needs_hardening(&Err(native(5))));
    assert!(!needs_hardening(&Ok(true)));
    assert_eq!(
        hardening_outcome("C:\\p", true).unwrap(),
        OwnerPrivateDirectoryOutcome::Hardened
    );
    assert_eq!(
        hardening_outcome("C:\\p", false).unwrap_err().message,
        "private-directory permissions were not applied to C:\\p"
    );
}

#[test]
fn a_private_directory_is_left_alone() {
    let ensure = |before, applied, after| {
        ensure_owner_private_directory("C:\\p", before, applied, after)
    };
    assert_eq!(
        ensure(Ok(true), Err(native(5)), Ok(false)).unwrap(),
        OwnerPrivateDirectoryOutcome::AlreadyPrivate
    );
    assert_eq!(
        ensure(Err(native(5)), Ok(()), Ok(true)).unwrap(),
        OwnerPrivateDirectoryOutcome::Hardened
    );
    assert_eq!(
        ensure(Ok(false), Err(native(7)), Ok(true)).unwrap_err().code,
        Some(7)
    );
    assert_eq!(
        ensure(Ok(false), Ok(()), Err(native(8))).unwrap_err().code,
        Some(8)
    );
    assert_eq!(
        ensure(Ok(false), Ok(()), Ok(false)).unwrap_err().kind,
        HostErrorKind::PermissionDenied
    );
    assert!(check_owner_sid(true, 28).is_ok());
    assert!(check_owner_sid(false, 28).is_err());
    assert!(check_owner_sid(true, 0).is_err());
    assert!(check_owner_sid(true, 1025).is_err());
    assert!(check_current_sid(true, 28).is_ok());
    assert!(check_current_sid(false, 28).is_err());
    assert!(check_current_sid(true, 2048).is_err());
    assert!(check_dacl_length(8).is_ok());
    assert!(check_dacl_length(7).is_err());
}

#[test]
fn the_owner_is_changed_only_where_needed() {
    let next = apply_dacl_sddl;
    let look = DaclUpdateStage::LookAtOwner;
    assert_eq!(next(look, true, true), DaclUpdateStage::SetList);
    assert_eq!(next(look, true, false), DaclUpdateStage::LookAgain);
    assert_eq!(next(look, false, true), DaclUpdateStage::Failed);
    let again = DaclUpdateStage::LookAgain;
    assert_eq!(next(again, true, true), DaclUpdateStage::SetList);
    assert_eq!(next(again, true, false), DaclUpdateStage::TakeOwnership);
    assert_eq!(
        next(DaclUpdateStage::TakeOwnership, true, false),
        DaclUpdateStage::SetList
    );
    assert_eq!(
        next(DaclUpdateStage::SetList, true, true),
        DaclUpdateStage::Done
    );
    assert_eq!(
        next(DaclUpdateStage::Done, false, true),
        DaclUpdateStage::Done
    );
}

#[test]
fn tightening_is_judged_by_what_is_read_back() {
    let user = "S-1-5-21-1-2-3-1001";
    let none = Vec::new();
    let exposed = format!("{}(A;OICI;FA;;;WD)", owner_only_sddl(user));
    assert!(needs_tightening(&exposed, user, &none));
    assert!(!needs_tightening(&owner_only_sddl(user), user, &none));
    let private = owner_only_sddl(user);
    let read_back = |list: &str| Ok((list.to_string(), Vec::new()));
    let mut asked = false;
    let untouched = ensure_dir_private("C:\\p", user, &private, &none, || {
        asked = true;
        read_back(&private)
    });
    assert!(!untouched.unwrap() && !asked);
    assert!(ensure_dir_private("C:\\p", user, &exposed, &none, || read_back(&private)).unwrap());
    let refused = || Err(HostError::new(HostErrorKind::PermissionDenied, "no"));
    assert_eq!(
        ensure_dir_private("C:\\p", user, &exposed, &none, refused)
            .unwrap_err()
            .message,
        "no"
    );
    let error = ensure_dir_private("C:\\p", user, &exposed, &none, || read_back(&exposed))
        .unwrap_err();
    assert_eq!(error.kind, HostErrorKind::PermissionDenied);
    assert!(error.message.contains(&exposed));
}

#[test]
fn missing_parents_are_made_from_the_outside_in() {
    let ancestor = |path: &str, is_dir: bool| Ancestor {
        path: path.to_string(),
        is_dir,
    };
    let lineage = vec![
        ancestor("C:\\a\\b\\c", false),
        ancestor("C:\\a\\b", false),
        ancestor("C:\\a", true),
        ancestor("C:\\", false),
    ];
    assert_eq!(
        create_dir_all_private(&lineage),
        texts(&["C:\\a\\b", "C:\\a\\b\\c"])
    );
    assert!(settle_creation(Ok(()), false).is_ok());
    let exists = || HostError::new(HostErrorKind::AlreadyExists, "there");
    assert!(settle_creation(Err(exists()), true).is_ok());
    assert!(settle_creation(Err(exists()), false).is_err());
    assert!(settle_creation(Err(native(5)), true).is_err());
}

// Processes.

#[test]
fn pid_zero_is_never_valid() {
    let error = process_id(0).expect_err("pid 0");
    assert_eq!(error.kind, ProcessInspectErrorKind::InvalidPid);
    assert_eq!(process_id(7).unwrap(), 7);
    assert_eq!(process_id(0x7fff_ffff).unwrap(), 0x7fff_ffff);
    assert_eq!(
        process_id(0x8000_0000).unwrap_err().kind,
        ProcessInspectErrorKind::InvalidPid
    );
}

#[test]
fn a_process_is_gone_where_its_number_is_refused() {
    assert_eq!(
        open_failure(native(87)).kind,
        ProcessInspectErrorKind::NotFound
    );
    let denied = open_failure(native(5));
    assert_eq!(denied.kind, ProcessInspectErrorKind::Host);
    assert_eq!(denied.source.code, Some(5));
    let watched = watch_open_failure(native(87));
    assert_eq!(watched.kind, ProcessInspectErrorKind::NotFound);
    assert_eq!(watched.source.code, Some(87));
    assert!(watchable(false).is_ok());
    assert_eq!(
        watchable(true).unwrap_err().kind,
        ProcessInspectErrorKind::NotFound
    );
}

#[test]
fn the_code_of_a_running_process_is_ambiguous_only_without_waiting() {
    assert!(!is_alive(true, true, Some(STILL_ACTIVE)));
    assert!(is_alive(true, false, Some(0)));
    assert!(is_alive(false, true, Some(STILL_ACTIVE)));
    assert!(!is_alive(false, false, Some(0)));
    assert!(!is_alive(false, false, None));
}

#[test]
fn exit_waits_and_codes() {
    assert!(matches!(exit_wait(0), ExitWait::Exited));
    assert!(matches!(exit_wait(WAIT_FAILED), ExitWait::Failed));
    assert!(matches!(exit_wait(1), ExitWait::Cancelled(_)));
    assert_eq!(exit_status(None), ProcessExitObservation::Unreported);
    assert_eq!(
        exit_status(Some(0xc000_0005)),
        ProcessExitObservation::Reported {
            code: 0xc000_0005_u32 as i32,
            native: 0xc000_0005
        }
    );
    assert_eq!(exit_code_of(0xffff_ffff), -1);
    assert_eq!(exit_code_of(0x8000_0000), i32::MIN);
    assert_eq!(try_wait_result(STILL_ACTIVE), None);
    assert_eq!(try_wait_result(7), Some(7));
}

#[test]
fn graceful_terminate_is_reported_unsupported() {
    let error = process_signal_terminate(1).expect_err("unsupported");
    assert_eq!(error.kind, ProcessInspectErrorKind::Unsupported);
}

#[test]
fn forced_ends_report_the_host() {
    assert!(force_kill_result(true, Ok(())).is_ok());
    assert_eq!(
        force_kill_result(false, Ok(())).unwrap_err().kind,
        ProcessInspectErrorKind::NotFound
    );
    assert_eq!(
        force_kill_result(true, Err(native(5)))
            .unwrap_err()
            .source
            .code,
        Some(5)
    );
    assert_eq!(
        force_terminate_child_process_group().unwrap_err().kind,
        HostErrorKind::Unsupported
    );
}

#[test]
fn spelling_differences_do_not_make_two_images() {
    assert!(process_same_executable_path(
        r"C:\Windows\System32\cmd.exe",
        r"c:\windows\system32\CMD.EXE",
    ));
    assert!(process_same_executable_path(
        r"\\?\C:\tmp\daemon.exe",
        r"C:\tmp\daemon.exe",
    ));
}

#[test]
fn different_images_are_still_different() {
    assert!(!process_same_executable_path(
        r"C:\tmp\daemon.exe",
        r"C:\tmp\other.exe",
    ));
}

#[test]
fn only_the_process_that_was_meant_gets_a_priority() {
    let step = set_priority_identity;
    assert_eq!(
        step(1, 2, None, ProcessPriority::Low),
        PriorityStep::Stale
    );
    assert_eq!(
        step(1, 1, Some(0), ProcessPriority::Low),
        PriorityStep::AlreadyExited
    );
    assert_eq!(
        step(1, 1, Some(STILL_ACTIVE), ProcessPriority::Normal),
        PriorityStep::Performed
    );
    assert_eq!(
        step(1, 1, None, ProcessPriority::Idle),
        PriorityStep::SetClass { class: 0x40 }
    );
    assert_eq!(priority_class(ProcessPriority::Low), Some(0x4000));
    assert_eq!(priority_class(ProcessPriority::High), Some(0x80));
    assert_eq!(filetime(1, 2), (1 << 32) | 2);
}

#[test]
fn priorities_report_what_the_host_made_of_them() {
    let outcome = priority_outcome;
    let set = PriorityStep::SetClass { class: 0x40 };
    assert_eq!(
        outcome(set, Ok(())).unwrap(),
        ProcessIdentityAction::Performed
    );
    assert!(matches!(
        outcome(set, Err(native(5))),
        Err(ProcessIdentityActionError::Host(error)) if error.code == Some(5)
    ));
    assert!(matches!(
        outcome(PriorityStep::Stale, Ok(())),
        Err(ProcessIdentityActionError::StaleIdentity)
    ));
    assert_eq!(
        outcome(PriorityStep::AlreadyExited, Err(native(5))).unwrap(),
        ProcessIdentityAction::AlreadyExited
    );
    assert_eq!(
        outcome(PriorityStep::Performed, Err(native(5))).unwrap(),
        ProcessIdentityAction::Performed
    );
}

#[test]
fn actions_on_processes_that_cannot_be_opened() {
    assert_eq!(
        action_open_failure(native(87)).unwrap(),
        ProcessIdentityAction::AlreadyExited
    );
    assert!(matches!(
        action_open_failure(native(5)),
        Err(ProcessIdentityActionError::PermissionDenied)
    ));
    assert!(matches!(
        action_open_failure(native(6)),
        Err(ProcessIdentityActionError::Host(_))
    ));
}

#[test]
fn old_streams_are_closed_only_where_nothing_uses_them() {
    assert!(closes_old_stream(true, false, false));
    assert!(!closes_old_stream(false, false, false));
    assert!(!closes_old_stream(true, true, false));
    assert!(!closes_old_stream(true, false, true));
}

#[test]
fn there_is_no_jobserver() {
    assert!(!native_jobserver_supported());
    assert_eq!(
        NativeJobserver::create(0).unwrap_err().kind,
        HostErrorKind::InvalidInput
    );
    assert_eq!(
        NativeJobserver::create(4).unwrap_err().kind,
        HostErrorKind::Unsupported
    );
}

#[test]
fn trees_add_up_their_memory() {
    let process = |pid, parent, rss| ProcessEntry { pid, parent, rss };
    let processes = vec![
        process(10, 1, Some(100)),
        process(11, 10, Some(20)),
        process(12, 11, Some(3)),
        process(13, 1, Some(1000)),
        process(14, 10, None),
        process(15, 15, Some(5000)),
    ];
    assert_eq!(
        tree_rss_bytes_for_pid(10, Some(100), &processes),
        Some(123)
    );
    assert_eq!(tree_rss_bytes_for_pid(10, None, &processes), None);
    assert_eq!(tree_rss_bytes_for_pid(12, Some(3), &processes), Some(3));
    assert_eq!(cpu_ticks_for_pid(u64::MAX, 2), 1);
    assert_eq!(peak_rss_bytes_for_pid(Some(4)), Some(4));
    assert_eq!(peak_rss_bytes_for_pid(None), None);
}

#[test]
fn requests_to_end_come_from_any_source() {
    let (arrived, closed, pending) =
        (SignalPoll::Arrived, SignalPoll::Closed, SignalPoll::Pending);
    assert_eq!(combine_polls(pending, closed, arrived), arrived);
    assert_eq!(combine_polls(closed, closed, closed), closed);
    assert_eq!(combine_polls(closed, pending, closed), pending);
}

// Creation.

#[test]
fn daemon_flags_request_breakaway_when_opted_in() {
    let flags = daemon_creation_flags(EXTENDED_STARTUPINFO_PRESENT, true);
    assert_ne!(flags & CREATE_BREAKAWAY_FROM_JOB, 0);
    assert_ne!(flags & CREATE_NEW_PROCESS_GROUP, 0);
    assert_ne!(flags & DETACHED_PROCESS, 0);
    assert_eq!(flags & CREATE_NO_WINDOW, 0);
}

#[test]
fn daemon_flags_stay_in_job_by_default() {
    let flags = daemon_creation_flags(EXTENDED_STARTUPINFO_PRESENT, false);
    assert_eq!(
        flags & CREATE_BREAKAWAY_FROM_JOB,
        0,
        "breakaway must be opt-in"
    );
    assert_ne!(flags & CREATE_NEW_PROCESS_GROUP, 0);
    assert_ne!(flags & DETACHED_PROCESS, 0);
    assert_eq!(flags & CREATE_NO_WINDOW, 0);
}

#[test]
fn daemon_flags_never_suspend() {
    for breakaway in [true, false] {
        let flags = daemon_creation_flags(EXTENDED_STARTUPINFO_PRESENT, breakaway);
        assert_eq!(flags & CREATE_SUSPENDED, 0);
        assert_ne!(flags & EXTENDED_STARTUPINFO_PRESENT, 0, "base preserved");
    }
}

#[test]
fn breakaway_fallback_clears_only_that_bit() {
    let flags = daemon_creation_flags(EXTENDED_STARTUPINFO_PRESENT, true);
    let fallback = retry_flags(flags, Some(5)).unwrap();
    assert_eq!(fallback & CREATE_BREAKAWAY_FROM_JOB, 0);
    assert_eq!(
        fallback,
        daemon_creation_flags(EXTENDED_STARTUPINFO_PRESENT, false),
        "fallback must equal the non-breakaway flag set"
    );
    assert_eq!(retry_flags(fallback, Some(5)), None);
    assert_eq!(retry_flags(flags, Some(2)), None);
}

#[test]
fn contained_processes_start_suspended() {
    let hidden = creation_flags(
        CreateMode::Contained {
            show_console: false,
        },
        true,
    );
    assert_ne!(hidden & CREATE_SUSPENDED, 0);
    assert_ne!(hidden & CREATE_NO_WINDOW, 0);
    assert_ne!(hidden & CREATE_UNICODE_ENVIRONMENT, 0);
    let shown = creation_flags(CreateMode::Contained { show_console: true }, false);
    assert_eq!(shown & CREATE_NO_WINDOW, 0);
    assert_eq!(shown & CREATE_UNICODE_ENVIRONMENT, 0);
    assert!(needs_own_environment(true, true));
    assert!(needs_own_environment(false, false));
    assert!(!needs_own_environment(false, true));
}

fn request(overrides: Vec<EnvOverride>, inherits: bool, mode: CreateMode) -> CreateRequest {
    CreateRequest {
        program: "C:\\my app.exe".to_string(),
        args: texts(&["x y"]),
        overrides,
        inherits,
        base: vec![EnvEntry {
            name: wide("A"),
            value: wide("1"),
        }],
        cwd: Some(wide("C:\\w")),
        mode,
    }
}

#[test]
fn a_process_is_created_from_its_parts() {
    let daemon = CreateMode::Daemon { breakaway: true };
    let plan = create_process_inner(request(Vec::new(), true, daemon));
    assert_eq!(plan.command_line, wide("\"C:\\my app.exe\" \"x y\"\0"));
    assert_eq!(plan.environment, None);
    assert_eq!(plan.cwd, Some(wide("C:\\w\0")));
    assert_eq!(plan.flags, creation_flags(daemon, false));
    let plan = create_process_inner(request(Vec::new(), false, daemon));
    assert_eq!(plan.environment, Some(wide("A=1\0\0")));
    assert_eq!(plan.flags, creation_flags(daemon, true));
    let change = EnvOverride {
        name: wide("a"),
        value: None,
    };
    let plan = create_process_inner(request(vec![change], true, daemon));
    assert_eq!(plan.environment, Some(vec![0, 0]));
    assert!(!keeps_thread(daemon));
    assert!(keeps_thread(CreateMode::Contained { show_console: true }));
}

#[test]
fn a_denied_breakaway_is_given_up_once() {
    let flags = daemon_creation_flags(EXTENDED_STARTUPINFO_PRESENT, true);
    let again = CreateStep::Again {
        flags: flags & !CREATE_BREAKAWAY_FROM_JOB,
    };
    assert_eq!(after_attempt(flags, None), CreateStep::Created);
    assert_eq!(after_attempt(flags, Some(&native(5))), again);
    assert_eq!(after_attempt(flags, Some(&native(2))), CreateStep::Fail);
    assert_eq!(
        after_attempt(flags & !CREATE_BREAKAWAY_FROM_JOB, Some(&native(5))),
        CreateStep::Fail
    );
}

#[test]
fn pipes_have_names_of_their_own() {
    let plan = create_pipe_pair(PipeDir::ChildWritesParentReads, 42, 7);
    assert_eq!(plan.name, wide("\\\\.\\pipe\\running-process-42-7\0"));
    assert_eq!(plan.open_mode, 0x4008_0001);
    assert_eq!(plan.pipe_mode, 8);
    assert_eq!(plan.child_access, 0x4000_0000);
    let other = create_pipe_pair(PipeDir::ParentWritesChildReads, 42, 8);
    assert_eq!(other.open_mode, 0x4008_0002);
    assert_ne!(plan.name, other.name);
    assert_eq!(create_job_object(), 0x2800);
}

#[test]
fn a_contained_child_is_resumed_in_its_job() {
    let mut stage = SpawnStage::Streams;
    let mut seen = Vec::new();
    while stage != SpawnStage::Running {
        seen.push(stage);
        stage = spawn_sync(stage, true, true);
    }
    assert_eq!(
        seen,
        [
            SpawnStage::Streams,
            SpawnStage::Create,
            SpawnStage::MakeJob,
            SpawnStage::Assign,
            SpawnStage::Resume,
            SpawnStage::Watch
        ]
    );
    assert_eq!(
        spawn_sync(SpawnStage::Assign, false, true),
        SpawnStage::EndAndFail
    );
    assert_eq!(
        spawn_sync(SpawnStage::Resume, false, false),
        SpawnStage::Running
    );
    for stage in [SpawnStage::Streams, SpawnStage::Create, SpawnStage::MakeJob] {
        assert_eq!(spawn_sync(stage, false, true), SpawnStage::Failed);
    }
    let mut state = SpawnedState::spawned();
    assert_eq!(state.wait(Ok(3)).unwrap(), 3);
    assert!(state.kill(Err(native(5))).is_err());
    state.shutdown();
    assert_eq!(state.wait(Ok(3)).unwrap_err().message, "child handle absent");
    assert!(state.kill(Err(native(5))).is_ok());
    assert_eq!(state.try_wait(Ok(Some(3))).unwrap(), None);
    assert_eq!(wait_inner(0, Some(7), native(1)).unwrap(), 7);
    assert!(wait_inner(1, Some(7), native(1)).is_err());
    assert!(wait_inner(0, None, native(1)).is_err());
    assert_eq!(try_wait_inner(Some(259), native(1)).unwrap(), None);
    assert_eq!(try_wait_inner(Some(1), native(1)).unwrap(), Some(1));
    assert!(try_wait_inner(None, native(1)).is_err());
}

#[test]
fn strict_worker_limits_default_to_kill_on_close_without_breakaway() {
    let configuration = StrictWorkerLimits::default().job_configuration().unwrap();
    let flags = configuration.limit_flags;
    assert_ne!(flags & JOB_OBJECT_LIMIT_KILL_ON_JOB_CLOSE, 0);
    assert_eq!(flags & JOB_OBJECT_LIMIT_BREAKAWAY_OK, 0);
    assert_eq!(flags & JOB_OBJECT_LIMIT_ACTIVE_PROCESS, 0);
    assert_eq!(flags & JOB_OBJECT_LIMIT_PROCESS_MEMORY, 0);
    assert_eq!(flags & JOB_OBJECT_LIMIT_JOB_MEMORY, 0);
}

#[test]
fn strict_worker_limits_map_every_requested_job_limit() {
    let configuration = StrictWorkerLimits {
        active_processes: Some(3),
        process_memory_bytes: Some(4096),
        job_memory_bytes: Some(8192),
    }
    .job_configuration()
    .unwrap();
    assert_eq!(configuration.active_processes, Some(3));
    assert_eq!(configuration.process_memory_bytes, Some(4096));
    assert_eq!(configuration.job_memory_bytes, Some(8192));
    assert_ne!(
        configuration.limit_flags & JOB_OBJECT_LIMIT_ACTIVE_PROCESS,
        0
    );
    assert_ne!(
        configuration.limit_flags & JOB_OBJECT_LIMIT_PROCESS_MEMORY,
        0
    );
    assert_ne!(configuration.limit_flags & JOB_OBJECT_LIMIT_JOB_MEMORY, 0);
    assert_eq!(configuration.limit_flags & JOB_OBJECT_LIMIT_BREAKAWAY_OK, 0);
}

#[test]
fn strict_worker_limits_reject_zero_values_before_process_creation() {
    assert_eq!(
        StrictWorkerLimits {
            active_processes: Some(0),
            ..StrictWorkerLimits::default()
        }
        .job_configuration(),
        Err(StrictWorkerLimitError::ZeroActiveProcesses)
    );
    assert_eq!(
        StrictWorkerLimits {
            process_memory_bytes: Some(0),
            ..StrictWorkerLimits::default()
        }
        .job_configuration(),
        Err(StrictWorkerLimitError::ZeroProcessMemory)
    );
    assert_eq!(
        StrictWorkerLimits {
            job_memory_bytes: Some(0),
            ..StrictWorkerLimits::default()
        }
        .job_configuration(),
        Err(StrictWorkerLimitError::ZeroJobMemory)
    );
    let error = StrictWorkerLimitError::ZeroJobMemory.to_host_error();
    assert_eq!(error.kind, HostErrorKind::InvalidInput);
    assert_eq!(error.message, "invalid strict worker limit: ZeroJobMemory");
}

#[test]
fn strict_worker_accepts_exactly_one_suspension() {
    assert!(strict_resume_count_is_valid(1));
    assert!(!strict_resume_count_is_valid(0));
    assert!(!strict_resume_count_is_valid(2));
    assert!(!strict_resume_count_is_valid(u32::MAX));
}

#[test]
fn a_worker_runs_only_after_it_was_contained() {
    let mut stage = LaunchStage::Pipes;
    let mut seen = Vec::new();
    while stage != LaunchStage::Running {
        seen.push(stage);
        stage = stage.next(true);
    }
    assert_eq!(
        seen,
        [
            LaunchStage::Pipes,
            LaunchStage::CheckLimits,
            LaunchStage::CreateJob,
            LaunchStage::ConfigureJob,
            LaunchStage::CreateSuspended,
            LaunchStage::Assign,
            LaunchStage::Resume,
        ]
    );
    assert_eq!(stage.failed_at(), None);
    let stages = [
        StrictWorkerSpawnStage::Pipe,
        StrictWorkerSpawnStage::ConfigureJob,
        StrictWorkerSpawnStage::CreateJob,
        StrictWorkerSpawnStage::ConfigureJob,
        StrictWorkerSpawnStage::CreateSuspended,
        StrictWorkerSpawnStage::AssignJob,
        StrictWorkerSpawnStage::Resume,
    ];
    for (stage, failed) in seen.iter().zip(stages) {
        assert_eq!(stage.next(false).failed_at(), Some(failed));
    }
    assert_eq!(
        LaunchStage::Assign.next(false),
        LaunchStage::FailedOutsideJob
    );
}

#[test]
fn worker_failures_keep_their_stage_and_cleanup() {
    assert!(reap_result(WAIT_OBJECT_0, native(6)).is_none());
    let late = reap_result(WAIT_TIMEOUT, native(6)).unwrap();
    assert_eq!(late.stage(), StrictWorkerSpawnStage::Reap);
    assert_eq!(late.raw_os_error(), None);
    let failed = reap_result(0xffff_ffff, native(6)).unwrap();
    assert_eq!(failed.raw_os_error(), Some(6));
    assert!(terminate_and_reap(Some(native(5)), None).is_none());
    let both = terminate_and_reap(Some(native(5)), Some(late)).unwrap();
    assert_eq!(both.stage(), StrictWorkerSpawnStage::Terminate);
    assert_eq!(both.raw_os_error(), Some(5));
    let error = StrictWorkerSpawnError::new(
        StrictWorkerSpawnStage::AssignJob,
        native(5),
        Some(StrictWorkerCleanupError::new(
            StrictWorkerSpawnStage::Reap,
            native(6),
        )),
    );
    assert_eq!(error.stage(), StrictWorkerSpawnStage::AssignJob);
    assert_eq!(error.cleanup().unwrap().raw_os_error(), Some(6));
    let stated = StrictWorkerSpawnError::new(
        StrictWorkerSpawnStage::Resume,
        HostError::new(HostErrorKind::Other, "no"),
        None,
    );
    assert_eq!(stated.describe(), "strict worker spawn failed at Resume: no");
    assert!(stated.cleanup().is_none());
    let cleanup = StrictWorkerCleanupError::new(
        StrictWorkerSpawnStage::Reap,
        HostError::new(HostErrorKind::Other, "no"),
    );
    assert_eq!(
        cleanup.describe(),
        "strict worker cleanup failed at Reap: no"
    );
    assert_eq!(cleanup.message(), "no");
}

#[test]
fn a_shutdown_that_failed_can_be_tried_again() {
    let mut state = StrictWorkerState::launched();
    assert_eq!(state.begin_shutdown(true), ShutdownWork::Reap);
    state.end_shutdown(false);
    assert_eq!(state.begin_shutdown(true), ShutdownWork::TerminateAndReap);
    state.end_shutdown(true);
    assert_eq!(state.begin_shutdown(true), ShutdownWork::Nothing);
}

#[test]
fn streams_are_resolved_by_direction() {
    assert_eq!(
        resolve_slot(StdioSource::Null, SlotDir::Stdin, true),
        SlotPlan::OpenNull { write: false }
    );
    assert_eq!(
        resolve_slot(StdioSource::Parent, SlotDir::Stdout, false),
        SlotPlan::OpenNull { write: true }
    );
    assert_eq!(
        resolve_slot(StdioSource::Parent, SlotDir::Stderr, true),
        SlotPlan::DuplicateParent
    );
    assert_eq!(
        resolve_slot(StdioSource::File, SlotDir::Stdin, true),
        SlotPlan::DuplicateFile
    );
    assert_eq!(
        resolve_slot(StdioSource::Pipe, SlotDir::Stdin, true),
        SlotPlan::CreatePipe {
            dir: PipeDir::ParentWritesChildReads
        }
    );
    assert_eq!(pipe_access(PipeDir::ChildWritesParentReads), (1, 0x4000_0000));
    assert_eq!(drain_step(WAIT_TIMEOUT, false), DrainStep::WaitAgain);
    assert_eq!(drain_step(WAIT_TIMEOUT, true), DrainStep::Leave);
    assert_eq!(drain_step(WAIT_OBJECT_0, true), DrainStep::Drain);
}

// Environment and command lines.

#[test]
fn empty_environment_block_has_double_nul_terminator() {
    let block = build_env_block(Vec::new(), Vec::new());
    assert_eq!(block, vec![0, 0]);
}

#[test]
fn changes_replace_variables_whatever_their_case() {
    let base = vec![
        EnvEntry {
            name: wide("Path"),
            value: wide("old"),
        },
        EnvEntry {
            name: wide("b"),
            value: wide("2"),
        },
        EnvEntry {
            name: wide("GONE"),
            value: wide("x"),
        },
    ];
    let overrides = vec![
        EnvOverride {
            name: wide("PATH"),
            value: Some(wide("new")),
        },
        EnvOverride {
            name: wide("gone"),
            value: None,
        },
        EnvOverride {
            name: wide("A"),
            value: Some(wide("1")),
        },
    ];
    let merged = merge_environment(base.clone(), overrides.clone());
    let names: Vec<Vec<u16>> = merged.iter().map(|entry| entry.name.clone()).collect();
    assert_eq!(names, [wide("A"), wide("b"), wide("PATH")]);
    assert_eq!(merged[2].value, wide("new"));
    let block = build_env_block(overrides, base);
    assert_eq!(block, wide("A=1\0b=2\0PATH=new\0\0"));
}

#[test]
fn arguments_are_quoted_so_that_they_are_read_back() {
    assert_eq!(quote("plain"), "plain");
    assert_eq!(quote(""), "\"\"");
    assert_eq!(quote("two words"), "\"two words\"");
    assert_eq!(quote("a\"b"), "\"a\\\"b\"");
    assert_eq!(quote("end \\"), "\"end \\\\\"");
    assert_eq!(quote("a\\b"), "a\\b");
    assert_eq!(
        compose_command_line("C:\\my app.exe", &texts(&["x", "y z"])),
        "\"C:\\my app.exe\" x \"y z\""
    );
    assert_eq!(
        build_command_line("a", &texts(&["\u{1f600}"])),
        wide("a \u{1f600}\0")
    );
}

#[test]
fn scripts_of_the_command_interpreter_are_passed_as_they_are() {
    assert!(is_cmd_exe("C:\\Windows\\System32\\CMD.exe"));
    assert!(is_cmd_exe("cmd"));
    assert!(!is_cmd_exe("command.exe"));
    assert!(is_cmd_script_switch("/C") && is_cmd_script_switch("/k"));
    assert!(!is_cmd_script_switch("/d"));
    assert_eq!(
        compose_command_line("cmd", &texts(&["/d", "/C", "echo \"a b\"", "&", "dir"])),
        "cmd /d /C \"echo \"a b\" & dir\""
    );
    assert!(!is_cmd_exe(r"\\?\C:\x/cmd"));
    assert!(is_cmd_exe(r"\\?\C:\x\cmd"));
}

#[test]
fn the_last_name_of_a_path_is_found_behind_every_prefix() {
    for (path, name) in [
        (r"C:\a\b.exe", Some("b.exe")),
        (r"C:/a/", Some("a")),
        (r"C:\a\.\", Some("a")),
        (r"C:\a\..", None),
        (r".", None),
        (r"C:\", None),
        (r"C:tool", Some("tool")),
        (r"1:stream", Some("1:stream")),
        (r"\\host\share", None),
        (r"//host/share/tool.exe", Some("tool.exe")),
        (r"\\.\pipe\name", Some("name")),
        (r"\\?\C:\a\b", Some("b")),
        (r"\\?\C:\x/cmd", Some("x/cmd")),
        (r"\\?\C:\x\.", None),
        (r"\\?\UNC\host\share\x", Some("x")),
        (r"\\?\UNC\host", None),
        (r"\\?\volume", None),
    ] {
        assert_eq!(windows_file_name(path).as_deref(), name, "{path}");
    }
}

#[test]
fn paths_are_compared_by_what_they_name() {
    for same in [r"c:/d//f", r"C:\d\.\f", r"C:\d\f\"] {
        assert!(same_windows_path(r"C:\d\f", same), "{same}");
    }
    for other in [r"C:d\f", r"C:\D\f", r"\d\f", r"\\?\C:\d\f", r"C:\d\..\f"] {
        assert!(!same_windows_path(r"C:\d\f", other), "{other}");
    }
    assert!(same_windows_path(r"\\h\s", r"//h/s/"));
    assert!(!same_windows_path(r"\\?\C:\a/b", r"\\?\C:\a\b"));
    assert!(!same_windows_path(r".\a", r"a"));
    assert_eq!(windows_rename(r"C:\a\b", "c"), r"C:\a\c");
    assert_eq!(windows_rename(r"C:\a\b\", "c"), r"C:\a\c");
    assert_eq!(windows_rename(r"C:\", "c"), r"C:\c");
    assert_eq!(windows_rename("b", "c"), "c");
}

#[test]
fn names_are_joined_to_paths_of_every_kind() {
    let units = |text: &str| text.chars().map(u32::from).collect::<Vec<u32>>();
    for (base, name, joined) in [
        (r"C:\d", r"f", r"C:\d\f"),
        (r"C:\d\", r"f", r"C:\d\f"),
        (r"C:", r"f", r"C:f"),
        (r"C:\d", r"D:f", r"D:f"),
        (r"C:\d", r"\f", r"C:\f"),
        (r"", r"f", r"f"),
        (r"C:\d", r"", r"C:\d\"),
        (r"\\h\s", r"f", r"\\h\s\f"),
        (r"\\?\C:\d\\e\", r"f/.\g", r"\\?\C:\d\e\f\g"),
        (r"\\?\C:\d", r"..\f", r"\\?\C:\f"),
        (r"\\?\C:\d", r"\f", r"\\?\C:\f"),
        (r"\\?\C:\d", r"..", r"\\?\C:\"),
        (r"\\?\C:\d", r"", r"\\?\C:\d\"),
    ] {
        assert_eq!(
            join_units(&units(base), &units(name)),
            units(joined),
            "{base} {name}"
        );
    }
}

#[test]
fn texts_are_encoded_in_units() {
    let mut units = vec![1];
    encode_wide("a\u{e4}\u{1f600}", &mut units);
    let mut expected = vec![1];
    expected.extend("a\u{e4}\u{1f600}".encode_utf16());
    assert_eq!(units, expected);
}

#[test]
fn programs_are_looked_for_by_suffix() {
    assert_eq!(file_name("tool"), "tool.exe");
    assert_eq!(native_library_name("core"), "core.dll");
    assert_eq!(native_library_name("core.node"), "core.node");
    assert!(stem_matches("C:\\bin\\Tool.EXE", "tool"));
    assert!(!stem_matches("C:\\bin\\tool2.exe", "tool"));
    assert_eq!(
        candidate_names("tool", None),
        texts(&["tool.COM", "tool.EXE", "tool.BAT", "tool.CMD"])
    );
    assert_eq!(
        candidate_names("tool", Some(".PS1;;.EXE")),
        texts(&["tool.PS1", "tool.EXE"])
    );
    assert_eq!(candidate_names("tool.sh", Some(".PS1")), texts(&["tool.sh"]));
    assert_eq!(candidate_names("tool", Some(";")).len(), 4);
    assert_eq!(
        find_in_paths(&vec![vec![false, false], vec![false, true], vec![true]]),
        Some((1, 1))
    );
    assert_eq!(find_in_paths(&vec![vec![false], Vec::new()]), None);
    assert_eq!(
        unlock_for_replacement("app.exe", 12, 10),
        format!("app.exe.old.{}", 12 ^ 10)
    );
    assert_eq!(unlock_for_replacement("app", 0, 0), "app.exe.old.0");
}

// Transport and resources.

#[test]
fn endpoints_hold_no_nul_and_sockets_are_not_offered() {
    assert!(reject_nul(r"\\.\pipe\x").is_ok());
    assert_eq!(
        reject_nul("a\0b").unwrap_err().kind,
        HostErrorKind::InvalidInput
    );
    assert!(retire_socket_endpoint("x").is_ok());
    assert_eq!(
        LocalSocketListener::bind_owner_only("x").unwrap_err().kind,
        HostErrorKind::Unsupported
    );
    assert_eq!(
        LocalSocketStream::connect("x").unwrap_err().kind,
        HostErrorKind::Unsupported
    );
}

#[test]
fn exhaustion_is_recognised() {
    for code in [10024, 4, 1450] {
        assert!(signals_fd_exhaustion(&native(code)));
        assert!(!signals_storage_exhaustion(&native(code)));
    }
    for code in [39, 112] {
        assert!(signals_storage_exhaustion(&native(code)));
        assert!(!signals_fd_exhaustion(&native(code)));
    }
    assert!(signals_fd_exhaustion(&fd_exhaustion_error()));
    assert!(signals_storage_exhaustion(&storage_exhaustion_error()));
    let space = || DiskSpace {
        available_to_caller: 3,
        total: 9,
    };
    assert_eq!(total_space(Ok(space())).unwrap(), 9);
    assert_eq!(available_space(Ok(space())).unwrap(), 3);
    assert_eq!(total_space(Err(native(5))).unwrap_err().code, Some(5));
}
