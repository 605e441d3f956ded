use kernal_api::host::HostErrorKind;
use kernal_api::windows::watch::{
    add_watch, backend_disconnected, check_acknowledgement, classify_action, completion,
    handle_event, is_recursive, monitors_subdirectories, open_failure, overflow_notification,
    read_report, waits_for_end, watch_lost_notification, watch_target, ChangeKind, Completion,
    EntryKind, RecursiveMode, RenameSide, WatchNotification, WatchTable,
    ERROR_OPERATION_ABORTED,
};

const FILE_ACTION_ADDED: u32 = 1;
const FILE_ACTION_REMOVED: u32 = 2;
const FILE_ACTION_MODIFIED: u32 = 3;
const FILE_ACTION_RENAMED_OLD_NAME: u32 = 4;
const FILE_ACTION_RENAMED_NEW_NAME: u32 = 5;

fn wide(text: &str) -> Vec<u16> {
    text.encode_utf16().collect()
}

#[test]
fn file_action_added_becomes_created_unknown() {
    assert_eq!(
        classify_action(FILE_ACTION_ADDED),
        Some(ChangeKind::Created(EntryKind::Unknown))
    );
}

#[test]
fn file_action_removed_becomes_removed_unknown() {
    assert_eq!(
        classify_action(FILE_ACTION_REMOVED),
        Some(ChangeKind::Removed(EntryKind::Unknown))
    );
}

#[test]
fn file_action_modified_becomes_content_modified() {
    assert_eq!(
        classify_action(FILE_ACTION_MODIFIED),
        Some(ChangeKind::ContentModified)
    );
}

#[test]
fn rename_old_and_new_name_become_paired_name_modified_sides() {
    assert_eq!(
        classify_action(FILE_ACTION_RENAMED_OLD_NAME),
        Some(ChangeKind::NameModified(RenameSide::From))
    );
    assert_eq!(
        classify_action(FILE_ACTION_RENAMED_NEW_NAME),
        Some(ChangeKind::NameModified(RenameSide::To))
    );
}

#[test]
fn unknown_action_is_skipped_rather_than_guessed_at() {
    assert_eq!(classify_action(0xffff_ffff), None);
}

#[test]
fn completion_with_zero_bytes_written_reports_overflow_with_the_watch_alive() {
    let notification = overflow_notification(wide(r"C:\watched"));
    match notification {
        WatchNotification::RescanRequired(rescan) => {
            assert!(!rescan.watch_lost());
            assert_eq!(rescan.paths(), &vec![wide(r"C:\watched")]);
        }
        WatchNotification::Change(_) => panic!("zero bytes written must not become a Change"),
    }
    assert_eq!(completion(0, 0), Completion::Overflow);
}

#[test]
fn reissue_failure_reports_overflow_with_the_watch_lost() {
    let notification = watch_lost_notification(wide(r"C:\watched"));
    match notification {
        WatchNotification::RescanRequired(rescan) => {
            assert!(rescan.watch_lost());
            assert_eq!(rescan.paths(), &vec![wide(r"C:\watched")]);
        }
        WatchNotification::Change(_) => panic!("a dead watch must not become a Change"),
    }
}

#[test]
fn completions_are_told_apart() {
    assert_eq!(completion(ERROR_OPERATION_ABORTED, 12), Completion::Released);
    assert_eq!(completion(0, 12), Completion::Report);
}

#[test]
fn modes_say_how_deep_to_watch() {
    assert!(is_recursive(RecursiveMode::Recursive));
    assert!(!is_recursive(RecursiveMode::NonRecursive));
    assert!(monitors_subdirectories(false, true));
    assert!(!monitors_subdirectories(false, false));
    assert!(!monitors_subdirectories(true, true));
}

fn entry(next: u32, action: u32, name: &str) -> Vec<u8> {
    let name = wide(name);
    let mut bytes = Vec::new();
    bytes.extend_from_slice(&next.to_le_bytes());
    bytes.extend_from_slice(&action.to_le_bytes());
    bytes.extend_from_slice(&((name.len() * 2) as u32).to_le_bytes());
    for unit in name {
        bytes.extend_from_slice(&unit.to_le_bytes());
    }
    bytes
}

#[test]
fn reports_are_read_entry_by_entry() {
    let mut report = entry(20, FILE_ACTION_RENAMED_OLD_NAME, "a\u{e4}");
    report.resize(20, 0);
    report.extend(entry(16, 0xffff, "??"));
    report.extend(entry(0, FILE_ACTION_ADDED, "new.txt"));
    let dir = wide(r"C:\watched");
    let events = read_report(&report, &dir, &None);
    assert_eq!(events.len(), 2);
    assert_eq!(events[0].kind, ChangeKind::NameModified(RenameSide::From));
    assert_eq!(events[0].path, wide("C:\\watched\\a\u{e4}"));
    assert_eq!(events[1].kind, ChangeKind::Created(EntryKind::Unknown));
    assert_eq!(events[1].path, wide(r"C:\watched\new.txt"));
}

#[test]
fn a_watched_file_hides_its_neighbours() {
    let mut report = entry(20, FILE_ACTION_MODIFIED, "a.txt");
    report.resize(24, 0);
    report[0] = 24;
    report.extend(entry(0, FILE_ACTION_MODIFIED, "b.txt"));
    let dir = wide(r"C:\watched");
    let events = read_report(&report, &dir, &Some(wide(r"C:\watched\b.txt")));
    assert_eq!(events.len(), 1);
    assert_eq!(events[0].path, wide(r"C:\watched\b.txt"));
    for spelled in [r"c:/watched/b.txt", r"C:\watched\.\b.txt", r"C:\watched\\b.txt"] {
        assert_eq!(read_report(&report, &dir, &Some(wide(spelled))).len(), 1);
    }
}

#[test]
fn a_report_that_is_cut_short_is_not_read_past_its_end() {
    let dir = wide(r"C:\watched");
    assert!(read_report(&[], &dir, &None).is_empty());
    let whole = entry(0, FILE_ACTION_ADDED, "abc");
    for keep in 0..whole.len() {
        assert!(read_report(&whole[..keep], &dir, &None).is_empty());
    }
}

#[test]
fn watches_are_on_directories() {
    let target = watch_target(r"C:\d", true, false, None).unwrap();
    assert!(!target.watches_file);
    assert_eq!(target.directory, r"C:\d");
    let target = watch_target(r"C:\d\f", false, true, Some(r"C:\d".to_string())).unwrap();
    assert!(target.watches_file);
    assert_eq!(target.directory, r"C:\d");
    assert!(watch_target(r"C:\gone", false, false, None).is_err());
    assert_eq!(open_failure(r"C:\d", false).kind, HostErrorKind::NotFound);
    assert_eq!(open_failure(r"C:\d", true).kind, HostErrorKind::Other);
}

#[test]
fn finished_reports_are_handled() {
    let dir = wide(r"C:\watched");
    let mut report = entry(20, FILE_ACTION_ADDED, "abcd");
    report.extend(entry(0, FILE_ACTION_REMOVED, "ef"));
    let ended = handle_event(ERROR_OPERATION_ABORTED, 0, &report, &dir, &None);
    assert!(ended.releases && !ended.asks_again && ended.notifications.is_empty());
    let full = handle_event(0, 0, &report, &dir, &None);
    assert!(!full.releases && full.asks_again);
    assert!(matches!(
        &full.notifications[..],
        [WatchNotification::RescanRequired(rescan)] if !rescan.watch_lost()
    ));
    let told = handle_event(0, 36, &report, &dir, &None);
    assert!(told.asks_again);
    assert!(matches!(
        &told.notifications[..],
        [WatchNotification::Change(first), WatchNotification::Change(second)]
            if first.path == wide(r"C:\watched\abcd")
                && second.kind == ChangeKind::Removed(EntryKind::Unknown)
    ));
}

#[test]
fn watches_are_added_step_by_step() {
    let parent = || Some(r"C:\d".to_string());
    let add = |is_dir, is_file, parent, opened, signalled| {
        add_watch(r"C:\d\f", is_dir, is_file, parent, opened, signalled)
    };
    assert!(add(false, true, parent(), true, true).unwrap().watches_file);
    assert_eq!(
        add(true, false, None, true, true).unwrap().directory,
        r"C:\d\f"
    );
    assert_eq!(
        add(false, false, parent(), true, true).unwrap_err().message,
        r"watch path is neither a file nor a directory: C:\d\f"
    );
    assert_eq!(
        add(false, true, None, true, true).unwrap_err().message,
        r"watch path has no parent directory: C:\d\f"
    );
    assert_eq!(
        add(true, false, None, false, true).unwrap_err().kind,
        HostErrorKind::NotFound
    );
    assert_eq!(
        add(true, false, None, true, false).unwrap_err().message,
        r"failed to create completion semaphore for watch: C:\d\f"
    );
    assert!(waits_for_end(true, true));
    assert!(!waits_for_end(true, false) && !waits_for_end(false, true));
    assert_eq!(
        backend_disconnected().message,
        "fs-watch backend disconnected"
    );
}

#[test]
fn watches_are_found_by_path() {
    let mut table = WatchTable::new();
    table.insert(&wide("C:\\d\\a"), 1);
    table.insert(&wide("C:\\d\\b"), 2);
    table.insert(&wide("c:/d//./a\\"), 3);
    let mut tokens = table.tokens();
    tokens.sort();
    assert_eq!(tokens, [2, 3]);
    assert_eq!(table.remove(&wide("C:\\d\\A")), None);
    assert_eq!(table.remove(&wide("C:\\d\\a")), Some(3));
    assert_eq!(table.remove(&wide("C:\\d\\a")), None);
    assert_eq!(table.tokens(), [2]);
}

#[test]
fn acknowledgements_name_what_was_asked() {
    assert!(check_acknowledgement("a", "a").is_ok());
    assert!(check_acknowledgement("C:\\a\\b", "C:/a/./b/").is_ok());
    assert!(check_acknowledgement("a", "b").is_err());
}
