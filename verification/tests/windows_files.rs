use kernal_api::host::{HostError, HostErrorKind};
use kernal_api::windows::files::{
    allocated_size_result, apply_metadata_mode, await_no_writers, bounded_path_length,
    classify, classify_link, decode_usn, extent_sharing, extent_step,
    file_change_marker, file_id_width, hard_link_count,
    is_unsupported, legacy_identity, make_executable, metadata_mode,
    native_call_parts, native_identity, path_file_identity, path_from_raw_bytes, read_extents,
    reparse_tag, require_plain_directory, require_same_directory, same_file, set_readonly,
    settle_sharing, sync_directory_if_supported, volume_identity_u128,
    volume_verdict, wide, wide_path, Extent,
    ExtentSharing, ExtentStep, LinkKind, VolumeVerdict, WriterWait, EXTENTS_OFFSET,
    EXTENTS_PER_CALL, EXTENT_SIZE,
};
use kernal_api::windows::replacement::{
    atomic_replace, backup_name, install_action, install_directory, is_av_scan_transient, is_lock_contention,
    is_transient_share_error, remove_directory_if_present, rename_generation,
    replace_with_delete_fallback, InstallAction, InstallFailure, InstallStage, ReplaceStage,
    RetrySchedule, RetryStep,
};
use kernal_api::windows::resources::inode_capacity;

fn native(code: i32) -> HostError {
    let kind = match code {
        2 => HostErrorKind::NotFound,
        5 => HostErrorKind::PermissionDenied,
        _ => HostErrorKind::Other,
    };
    HostError::native(kind, code)
}

fn extent(lcn: i64, references: u32) -> Extent {
    Extent {
        next_vcn: 0,
        lcn,
        reference_count: references,
    }
}

#[test]
fn refcount_reply_matches_the_winioctl_layout() {
    assert_eq!(EXTENTS_OFFSET, 16);
    assert_eq!(EXTENT_SIZE, 24);
}

#[test]
fn classify_calls_a_second_reference_shared_and_skips_holes() {
    assert_eq!(classify(&[]), None);
    assert_eq!(classify(&[extent(10, 1), extent(20, 1)]), None);
    assert_eq!(classify(&[extent(-1, 2)]), None);
    assert_eq!(
        classify(&[extent(10, 1), extent(20, 2)]),
        Some(ExtentSharing::Shared)
    );
}

#[test]
fn extents_are_read_from_a_reply() {
    let mut reply = vec![0_u8; EXTENTS_OFFSET + EXTENT_SIZE * EXTENTS_PER_CALL];
    reply[0..4].copy_from_slice(&2_u32.to_le_bytes());
    reply[16..24].copy_from_slice(&7_i64.to_le_bytes());
    reply[24..32].copy_from_slice(&(-1_i64).to_le_bytes());
    reply[32..36].copy_from_slice(&1_u32.to_le_bytes());
    reply[40..48].copy_from_slice(&9_i64.to_le_bytes());
    reply[48..56].copy_from_slice(&100_i64.to_le_bytes());
    reply[56..60].copy_from_slice(&3_u32.to_le_bytes());
    let extents = read_extents(&reply);
    assert_eq!(
        extents,
        vec![
            Extent {
                next_vcn: 7,
                lcn: -1,
                reference_count: 1
            },
            Extent {
                next_vcn: 9,
                lcn: 100,
                reference_count: 3
            },
        ]
    );
    reply[0..4].copy_from_slice(&u32::MAX.to_le_bytes());
    assert_eq!(read_extents(&reply).len(), EXTENTS_PER_CALL);
}

#[test]
fn extent_questions_go_on_only_while_they_advance() {
    let page = [Extent {
        next_vcn: 40,
        lcn: 10,
        reference_count: 1,
    }];
    assert_eq!(
        extent_step(0, Some(38), &[]),
        ExtentStep::Report {
            sharing: ExtentSharing::Exclusive
        }
    );
    assert_eq!(extent_step(0, Some(5), &page), ExtentStep::Fail);
    assert_eq!(
        extent_step(0, Some(234), &page),
        ExtentStep::AskFrom { vcn: 40 }
    );
    assert_eq!(
        extent_step(40, Some(234), &page),
        ExtentStep::Report {
            sharing: ExtentSharing::Exclusive
        }
    );
    assert_eq!(
        extent_step(0, None, &page),
        ExtentStep::Report {
            sharing: ExtentSharing::Exclusive
        }
    );
    assert_eq!(
        extent_step(0, Some(234), &[extent(3, 2)]),
        ExtentStep::Report {
            sharing: ExtentSharing::Shared
        }
    );
}

#[test]
fn file_systems_are_told_apart_by_name() {
    assert_eq!(volume_verdict("ntfs"), VolumeVerdict::Exclusive);
    assert_eq!(volume_verdict("exFAT"), VolumeVerdict::Exclusive);
    assert_eq!(volume_verdict("REFS"), VolumeVerdict::Ask);
    assert_eq!(volume_verdict("ext4"), VolumeVerdict::Unknown);
}

#[test]
fn an_unsupported_question_leaves_sharing_unknown() {
    assert!(is_unsupported(Some(1)) && is_unsupported(Some(50)) && is_unsupported(Some(87)));
    assert!(!is_unsupported(Some(5)) && !is_unsupported(None));
    assert_eq!(
        settle_sharing(Err(native(50))).unwrap(),
        ExtentSharing::Unknown
    );
    assert_eq!(settle_sharing(Err(native(5))).unwrap_err().code, Some(5));
    assert_eq!(
        settle_sharing(Ok(ExtentSharing::Shared)).unwrap(),
        ExtentSharing::Shared
    );
    let shared = || Ok(ExtentSharing::Shared);
    assert_eq!(
        extent_sharing("NTFS", shared()).unwrap(),
        ExtentSharing::Exclusive
    );
    assert_eq!(
        extent_sharing("btrfs", shared()).unwrap(),
        ExtentSharing::Unknown
    );
    assert_eq!(
        extent_sharing("refs", shared()).unwrap(),
        ExtentSharing::Shared
    );
    assert!(extent_sharing("refs", Err(native(5))).is_err());
}

#[test]
fn legacy_fallback_preserves_both_words_and_zero_extends_identifier() {
    let identity = legacy_identity(u32::MAX, 0x1234_5678, 0x9abc_def0);
    assert_eq!(identity.volume_serial, u64::from(u32::MAX));
    assert_eq!(&identity.identifier[..4], &0x1234_5678_u32.to_le_bytes());
    assert_eq!(&identity.identifier[4..8], &0x9abc_def0_u32.to_le_bytes());
    assert_eq!(&identity.identifier[8..], &[0_u8; 8]);
}

#[test]
fn upper_identifier_and_volume_bits_participate_in_identity() {
    let mut identifier = [0_u8; 16];
    identifier[15] = 1;
    let first = native_identity(1_u64 << 48, identifier);
    assert_eq!(first.volume_serial, 1_u64 << 48);
    identifier[15] = 2;
    assert_ne!(first, native_identity(1_u64 << 48, identifier));
    assert!(!first.same(&native_identity(1_u64 << 48, identifier)));
    identifier[15] = 1;
    assert_ne!(first, native_identity(0, identifier));
    assert!(!first.same(&native_identity(0, identifier)));
    assert!(first.same(&native_identity(1_u64 << 48, identifier)));
}

#[test]
fn paths_name_one_file_only_where_both_were_observed() {
    let one = native_identity(1, [1; 16]);
    assert!(same_file(Some(one), Some(one)));
    assert!(!same_file(Some(one), None));
    assert!(!same_file(None, None));
    assert_eq!(path_file_identity("C:\\a", Some(one)).unwrap(), one);
    let error = path_file_identity("C:\\a", None).unwrap_err();
    assert_eq!(error.kind, HostErrorKind::NotFound);
    assert_eq!(error.message, "cannot obtain file identity for C:\\a");
}

#[test]
fn cleanup_identity_rejects_a_different_directory() {
    let original = native_identity(1, [1; 16]);
    let replacement = native_identity(1, [2; 16]);
    assert!(require_same_directory(&original, &replacement).is_err());
    assert!(require_same_directory(&original, &original).is_ok());
}

#[test]
fn anchors_are_plain_directories() {
    assert!(require_plain_directory(true, 0x10).is_ok());
    assert!(require_plain_directory(false, 0x10).is_err());
    assert!(require_plain_directory(true, 0x410).is_err());
    assert_eq!(bounded_path_length(12, 260).unwrap(), 12);
    assert_eq!(
        bounded_path_length(260, 260).unwrap_err().message,
        "scratch directory path exceeds Win32 limit"
    );
}

#[test]
fn decodes_supported_usn_versions_without_alignment_assumptions() {
    for (version, size, offset) in [(2_u16, 64_usize, 24_usize), (3_u16, 80, 40)] {
        let mut bytes = vec![0_u8; size + 1];
        let record = &mut bytes[1..];
        record[4..6].copy_from_slice(&version.to_ne_bytes());
        record[offset..offset + 8].copy_from_slice(&1234_i64.to_ne_bytes());
        assert_eq!(decode_usn(record), Some(1234));
        assert_eq!(decode_usn(&record[..7]), None);
        assert_eq!(decode_usn(&record[..size - 1]), None);
        record[4..6].copy_from_slice(&4_u16.to_ne_bytes());
        assert_eq!(decode_usn(record), None);
    }
}

#[test]
fn change_markers_are_read_from_what_was_filled() {
    let mut buffer = vec![0_u8; 128];
    buffer[4] = 2;
    buffer[24..32].copy_from_slice(&(-5_i64).to_le_bytes());
    assert_eq!(file_change_marker(true, &buffer, 64), Some(-5));
    assert_eq!(file_change_marker(true, &buffer, 63), None);
    assert_eq!(file_change_marker(true, &buffer, 129), None);
    assert_eq!(file_change_marker(false, &buffer, 64), None);
}

#[test]
fn allocated_size_combines_high_and_low_words_and_falls_back() {
    assert_eq!(allocated_size_result(7, 1, 0, 99), (1_u64 << 32) | 7);
    assert_eq!(
        allocated_size_result(u32::MAX, 0, 0, 99),
        u64::from(u32::MAX)
    );
    assert_eq!(allocated_size_result(u32::MAX, 0, 5, 99), 99);
}

#[test]
fn links_are_classified_by_their_tag() {
    assert_eq!(classify_link(0x20, None), LinkKind::Regular);
    assert_eq!(classify_link(0x400, Some(0xa000_000c)), LinkKind::Symlink);
    assert_eq!(classify_link(0x400, Some(0xa000_0003)), LinkKind::Reparse);
    assert_eq!(classify_link(0x400, None), LinkKind::Reparse);
    assert_eq!(reparse_tag(&[0x0c, 0, 0, 0xa0, 9], 5), Some(0xa000_000c));
    assert_eq!(reparse_tag(&[0x0c, 0, 0, 0xa0], 3), None);
}

#[test]
fn recorded_modes_are_put_back() {
    for readonly in [false, true] {
        assert_eq!(apply_metadata_mode(metadata_mode(readonly)), readonly);
        assert!(!set_readonly(readonly, readonly));
        assert!(set_readonly(readonly, !readonly));
    }
    assert!(make_executable().is_ok());
    assert!(sync_directory_if_supported().is_ok());
    assert_eq!(file_id_width(), 128);
    assert_eq!(await_no_writers(), WriterWait::Unobservable);
}

#[test]
fn link_counts_report_the_query_before_the_close() {
    let code = |open, query, close| hard_link_count(3, open, query, close).unwrap_err().code;
    assert_eq!(hard_link_count(3, None, None, None).unwrap(), 3);
    assert_eq!(
        code(Some(native(2)), Some(native(5)), Some(native(6))),
        Some(2)
    );
    assert_eq!(code(None, Some(native(5)), Some(native(6))), Some(5));
    assert_eq!(code(None, None, Some(native(6))), Some(6));
    let identity = native_identity(u64::MAX, [0; 16]);
    assert_eq!(volume_identity_u128(Some(identity)), Some(u64::MAX as u128));
    assert_eq!(volume_identity_u128(None), None);
}

#[test]
fn nul_path_is_rejected_and_unpaired_surrogates_are_preserved() {
    let nul: Vec<u16> = "prefix\0suffix".encode_utf16().collect();
    assert_eq!(
        wide(nul.clone()).unwrap_err().kind,
        HostErrorKind::InvalidInput
    );
    assert_eq!(wide_path(nul), None);
    assert_eq!(wide(vec![65, 0xd800, 66]).unwrap(), [65, 0xd800, 66, 0]);
    assert_eq!(wide_path(vec![65]), Some(vec![65, 0]));
}

#[test]
fn raw_bytes_are_paths_only_as_text() {
    assert_eq!(
        path_from_raw_bytes("C:\\\u{e4}".as_bytes().to_vec()),
        Some("C:\\\u{e4}".to_string())
    );
    assert_eq!(path_from_raw_bytes(vec![0xff]), None);
}

#[test]
fn host_paths_resolve_the_directory_and_keep_the_name() {
    assert_eq!(
        native_call_parts("a", Some("a".to_string()), Some(String::new())).unwrap(),
        (".".to_string(), "a".to_string())
    );
    assert_eq!(
        native_call_parts("d/a", Some("a".to_string()), Some("d".to_string())).unwrap(),
        ("d".to_string(), "a".to_string())
    );
    assert_eq!(
        native_call_parts("..", None, None).unwrap_err().message,
        "path has no filename: .."
    );
}

fn run_retry(failures: &[Option<HostError>]) -> (usize, Vec<u64>) {
    let mut schedule = RetrySchedule::new();
    let mut attempts = 0;
    let mut delays = Vec::new();
    loop {
        let outcome = &failures[attempts.min(failures.len() - 1)];
        attempts += 1;
        match schedule.after(outcome.as_ref()) {
            RetryStep::Stop => return (attempts, delays),
            RetryStep::Wait { milliseconds } => delays.push(milliseconds),
        }
    }
}

#[test]
fn retry_exhaustion_preserves_exact_attempts_delays_and_last_error() {
    let mut schedule = RetrySchedule::new();
    let mut attempts = 0;
    let mut delays = Vec::new();
    let error = loop {
        attempts += 1;
        let error = HostError::new(HostErrorKind::PermissionDenied, &attempts.to_string());
        match schedule.after(Some(&error)) {
            RetryStep::Stop => break error,
            RetryStep::Wait { milliseconds } => delays.push(milliseconds),
        }
    };
    assert_eq!(attempts, 5);
    assert_eq!(delays, [50, 100, 250, 500]);
    assert_eq!(error.message, "5");
}

#[test]
fn retry_stops_on_success_or_nontransient_error() {
    let (attempts, delays) = run_retry(&[Some(native(32)), Some(native(32)), None]);
    assert_eq!(attempts, 3);
    assert_eq!(delays, [50, 100]);
    let (attempts, delays) = run_retry(&[Some(native(2))]);
    assert_eq!(attempts, 1);
    assert!(delays.is_empty());
    let (attempts, delays) = run_retry(&[None]);
    assert_eq!(attempts, 1);
    assert!(delays.is_empty());
}

#[test]
fn share_classifiers_are_narrower_than_the_retry_rule() {
    let synthetic = HostError::new(HostErrorKind::PermissionDenied, "synthetic");
    assert!(is_av_scan_transient(&synthetic));
    assert!(!is_transient_share_error(&synthetic));
    assert!(is_transient_share_error(&native(5)));
    assert!(is_transient_share_error(&native(32)));
    assert!(!is_transient_share_error(&native(33)));
    assert!(is_lock_contention(&native(33)));
    assert!(!is_lock_contention(&native(32)));
}

/// Runs an installation, and gives back what was done and what failed.
fn install(
    mut rename: impl FnMut(usize) -> bool,
    cleaned: Option<bool>,
) -> (Vec<(String, String)>, Option<InstallFailure>) {
    let mut calls = Vec::new();
    let mut stage = InstallStage::BackUp;
    loop {
        let succeeded = match install_action(stage, "staged", "requested", "backup") {
            InstallAction::Rename { from, to } => {
                calls.push((from, to));
                rename(calls.len())
            }
            InstallAction::Remove { path } => {
                assert_eq!(path, "backup");
                cleaned.expect("the backup must not be cleaned here")
            }
            InstallAction::Nothing => {
                return match stage {
                    InstallStage::Failed { at } => (calls, Some(at)),
                    _ => (calls, None),
                }
            }
        };
        stage = stage.next(succeeded);
    }
}

#[test]
fn failed_install_attempts_rollback_without_masking_the_install_error() {
    for rollback_fails in [false, true] {
        let (calls, failure) = install(
            |call| match call {
                1 => true,
                2 => false,
                3 => !rollback_fails,
                _ => panic!("unexpected rename"),
            },
            None,
        );
        assert_eq!(failure, Some(InstallFailure::Install));
        assert_eq!(
            calls,
            [
                ("requested".to_string(), "backup".to_string()),
                ("staged".to_string(), "requested".to_string()),
                ("backup".to_string(), "requested".to_string()),
            ]
        );
    }
}

#[test]
fn failed_initial_backup_stops_before_installation() {
    let (calls, failure) = install(|_| false, None);
    assert_eq!(calls.len(), 1);
    assert_eq!(failure, Some(InstallFailure::BackUp));
}

#[test]
fn cleanup_failure_is_reported_after_successful_install_without_rollback() {
    let (calls, failure) = install(|_| true, Some(false));
    assert_eq!(calls.len(), 2);
    assert_eq!(failure, Some(InstallFailure::RemoveBackup));
    let (calls, failure) = install(|_| true, Some(true));
    assert_eq!(calls.len(), 2);
    assert_eq!(failure, None);
}

#[test]
fn only_what_is_there_needs_a_backup() {
    assert_eq!(install_directory(true), InstallStage::BackUp);
    assert_eq!(install_directory(false), InstallStage::Place);
    assert_eq!(InstallStage::Place.next(true), InstallStage::Done);
    assert_eq!(
        InstallStage::Place.next(false),
        InstallStage::Failed {
            at: InstallFailure::Install
        }
    );
    assert_eq!(
        backup_name(4711, 0),
        format!(".zccache-directory-backup-{}-{}", 4711, 0)
    );
    assert_ne!(backup_name(11, 1), backup_name(11, 11));
}

#[test]
fn a_directory_that_is_not_there_needs_no_removing() {
    assert!(remove_directory_if_present(Ok(())).is_ok());
    assert!(remove_directory_if_present(Err(native(2))).is_ok());
    assert_eq!(
        remove_directory_if_present(Err(native(5)))
            .unwrap_err()
            .code,
        Some(5)
    );
}

#[test]
fn replacing_falls_back_to_deleting() {
    let after = replace_with_delete_fallback;
    assert_eq!(after(ReplaceStage::Replace, true, true), ReplaceStage::Done);
    assert_eq!(
        after(ReplaceStage::Replace, false, true),
        ReplaceStage::Delete
    );
    assert_eq!(
        after(ReplaceStage::Replace, false, false),
        ReplaceStage::Failed
    );
    assert_eq!(after(ReplaceStage::Delete, true, true), ReplaceStage::Rename);
    assert_eq!(
        after(ReplaceStage::Delete, false, true),
        ReplaceStage::Failed
    );
    assert_eq!(after(ReplaceStage::Rename, true, true), ReplaceStage::Done);
    assert_eq!(
        after(ReplaceStage::Rename, false, true),
        ReplaceStage::Failed
    );
    assert_eq!(rename_generation(), 0);
    assert_eq!(atomic_replace(), 1 | 8);
}

#[test]
fn inode_usage_is_not_applicable_on_windows() {
    assert!(inode_capacity().expect("the probe never fails").is_none());
}
