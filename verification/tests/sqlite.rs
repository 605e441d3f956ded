use kernal_api::host::{HostError, HostErrorKind};
use kernal_api::sqlite::{
    backup_to, check_busy_timeout, check_deadline, check_destination, checkpoint_limits,
    collect_rows, integrity_limits, map_error, publish_result,
    read_checkpoint, read_integrity, staging_place, value_from, BackupDecision, BackupProgress,
    BackupStage, BackupStep, Checkpoint, Error, QueryBudget, QueryLimits, RawCell, Row, Transaction,
    Value, BACKUP_MAX_RETRIES, MAX_BUSY_TIMEOUT_NANOS,
};

fn limits(max_rows: usize, max_bytes: usize) -> QueryLimits {
    QueryLimits {
        max_rows,
        max_bytes,
    }
}

#[test]
fn values_come_out_of_cells() {
    assert_eq!(value_from(&RawCell::Null).unwrap(), Value::Null);
    assert_eq!(
        value_from(&RawCell::Integer(-3)).unwrap(),
        Value::Integer(-3)
    );
    let bits = 1.5_f64.to_bits();
    assert_eq!(value_from(&RawCell::Real(bits)).unwrap(), Value::Real(bits));
    assert_eq!(
        value_from(&RawCell::Text("\u{e4}".as_bytes())).unwrap(),
        Value::Text("\u{e4}".to_string())
    );
    assert_eq!(
        value_from(&RawCell::Blob(&[0xff])).unwrap(),
        Value::Blob(vec![0xff])
    );
    let expected = String::from_utf8(vec![b'a', 0xff]).unwrap_err();
    match value_from(&RawCell::Text(&[b'a', 0xff])) {
        Err(Error::Sqlite(message)) => {
            assert_eq!(message, format!("invalid UTF-8 SQLite TEXT: {expected}"))
        }
        _ => panic!("text that is not UTF-8 must be refused"),
    }
}

#[test]
fn results_stay_within_their_limits() {
    let row = || vec![RawCell::Integer(1), RawCell::Text(b"abcd")];
    let rows = vec![row(), row()];
    let cost = 2 * (std::mem::size_of::<Row>() + 2 * std::mem::size_of::<Value>() + 12);
    let collected = collect_rows(limits(2, cost), &rows).unwrap();
    assert_eq!(collected.len(), 2);
    assert_eq!(collected[1].get(0), Some(&Value::Integer(1)));
    assert_eq!(collected[1].get(1), Some(&Value::Text("abcd".to_string())));
    assert_eq!(collected[1].get(2), None);
    assert_eq!(collected[0].values().len(), 2);
    assert!(matches!(
        collect_rows(limits(1, cost), &rows),
        Err(Error::ResultLimitExceeded { max_rows: 1, max_bytes }) if max_bytes == cost
    ));
    assert!(matches!(
        collect_rows(limits(2, cost - 1), &rows),
        Err(Error::ResultLimitExceeded { .. })
    ));
    assert!(matches!(
        collect_rows(limits(0, 1), &rows),
        Err(Error::InvalidLimits)
    ));
    assert!(matches!(
        collect_rows(limits(1, 0), &rows),
        Err(Error::InvalidLimits)
    ));
    let mut budget = QueryBudget::new(limits(1, cost)).unwrap();
    assert!(budget.take_row(&row()).is_ok());
    assert!(budget.take_row(&row()).is_err());
    assert_eq!(QueryLimits::default().max_rows, 1_000);
}

#[test]
fn answers_of_the_engine_are_read() {
    let row = |values| vec![Row::new(values)];
    assert_eq!(
        read_checkpoint(&row(vec![
            Value::Integer(1),
            Value::Integer(7),
            Value::Integer(5)
        ]))
        .unwrap(),
        Checkpoint {
            busy: true,
            log_frames: 7,
            checkpointed_frames: 5
        }
    );
    for bad in [
        Vec::new(),
        row(Vec::new()),
        row(vec![Value::Integer(0), Value::Integer(-1), Value::Integer(0)]),
        row(vec![Value::Integer(0), Value::Null, Value::Integer(0)]),
    ] {
        assert!(matches!(read_checkpoint(&bad), Err(Error::Sqlite(_))));
    }
    assert!(read_integrity(&row(vec![Value::Text("ok".to_string())])).is_ok());
    assert!(matches!(
        read_integrity(&row(vec![Value::Text("page 3".to_string())])),
        Err(Error::IntegrityCheckFailed(message)) if message == "page 3"
    ));
    assert!(matches!(
        read_integrity(&Vec::new()),
        Err(Error::Sqlite(_))
    ));
}

#[test]
fn a_failed_statement_ends_its_transaction() {
    let mut state = Transaction::begun();
    assert!(state.require_active().is_ok());
    assert!(!state.after_statement(false));
    assert!(state.after_statement(true));
    assert!(matches!(
        state.require_active(),
        Err(Error::TransactionInactive)
    ));
    assert!(!state.abort());
    let mut transaction = Transaction::begun();
    assert!(matches!(transaction.execute(|| Ok(3)), (Ok(3), false)));
    assert!(matches!(
        transaction.query(|| Err(Error::Busy)),
        (Err(Error::Busy), true)
    ));
    let mut ran = false;
    let later = transaction.execute(|| {
        ran = true;
        Ok(1)
    });
    assert!(matches!(later, (Err(Error::TransactionInactive), false)));
    assert!(!ran);
    let mut state = Transaction::begun();
    state.after_end(false);
    assert!(state.abort());
    let mut state = Transaction::begun();
    state.after_end(true);
    assert!(!state.abort());
}

#[test]
fn a_backup_gives_up_on_a_busy_database() {
    let mut progress = BackupProgress::new();
    for _ in 1..BACKUP_MAX_RETRIES {
        assert!(matches!(
            progress.after_step(BackupStep::Busy),
            BackupDecision::Wait
        ));
    }
    assert!(matches!(
        progress.after_step(BackupStep::More),
        BackupDecision::Continue
    ));
    for _ in 1..BACKUP_MAX_RETRIES {
        assert!(matches!(
            progress.after_step(BackupStep::Locked),
            BackupDecision::Wait
        ));
    }
    assert!(matches!(
        progress.after_step(BackupStep::Locked),
        BackupDecision::Fail(Error::Busy)
    ));
    let mut progress = BackupProgress::new();
    assert!(matches!(
        progress.after_step(BackupStep::Finished),
        BackupDecision::Finish
    ));
    assert!(matches!(
        progress.after_step(BackupStep::Unknown),
        BackupDecision::Fail(Error::Sqlite(_))
    ));
}

#[test]
fn a_backup_is_published_last() {
    let mut stage = BackupStage::Look;
    let mut seen = Vec::new();
    while stage != BackupStage::Done {
        seen.push(stage);
        assert_eq!(backup_to(stage, false), BackupStage::Failed);
        stage = backup_to(stage, true);
    }
    assert_eq!(
        seen,
        [
            BackupStage::Look,
            BackupStage::Stage,
            BackupStage::Copy,
            BackupStage::Sync,
            BackupStage::Publish
        ]
    );
    assert_eq!(backup_to(BackupStage::Failed, true), BackupStage::Failed);
    assert!(check_deadline(999_999_999).is_ok());
    assert!(matches!(check_deadline(1_000_000_000), Err(Error::Busy)));
    assert_eq!(checkpoint_limits(), limits(1, 256));
    assert_eq!(integrity_limits(), limits(2, 4096));
}

#[test]
fn nothing_is_overwritten() {
    assert!(check_destination("/b", false).is_ok());
    assert!(matches!(
        check_destination("/b", true),
        Err(Error::AlreadyExists(path)) if path == "/b"
    ));
    assert_eq!(
        staging_place(Some(String::new()), Some("b.db".to_string())).unwrap(),
        (".".to_string(), ".b.db.kernal-api-backup-".to_string())
    );
    assert!(staging_place(None, None).is_err());
    assert!(publish_result("/b", Ok(())).is_ok());
    assert!(matches!(
        publish_result(
            "/b",
            Err(HostError::new(HostErrorKind::AlreadyExists, "there"))
        ),
        Err(Error::AlreadyExists(_))
    ));
    assert!(matches!(
        publish_result(
            "/b",
            Err(HostError::new(HostErrorKind::PermissionDenied, "no"))
        ),
        Err(Error::Io(_))
    ));
}

#[test]
fn failures_say_what_they_are() {
    assert!(matches!(map_error(true, "x".to_string()), Error::Busy));
    assert_eq!(
        map_error(false, "no such table: t".to_string()).message(),
        "SQLite error: no such table: t"
    );
    assert!(check_busy_timeout(MAX_BUSY_TIMEOUT_NANOS).is_ok());
    assert_eq!(
        check_busy_timeout(MAX_BUSY_TIMEOUT_NANOS + 1)
            .unwrap_err()
            .message(),
        "SQLite busy timeout exceeds the five-second facade maximum"
    );
    assert_eq!(
        Error::ResultLimitExceeded {
            max_rows: 10,
            max_bytes: 200
        }
        .message(),
        "SQLite result exceeds 10 rows or 200 bytes"
    );
}
