//! Bounded use of an embedded database: budgets of queries, states of
//! transactions and backups, and what the answers of the engine mean.
use vstd::prelude::*;
use vstd::string::StringExecFns;

use crate::host::{HostError, HostErrorKind};
use crate::strings::{
    chars_of, decimal, decimal_text, join2, join3, same_text, text_from_utf8, utf8_fault,
};
use vstd::utf8::{decode_utf8, encode_utf8, valid_utf8};

verus! {

/// How long a busy database is waited for, unless asked otherwise.
pub const BUSY_TIMEOUT_MS: u64 = 100;

/// How long a busy database may be waited for at most, in nanoseconds.
pub const MAX_BUSY_TIMEOUT_NANOS: u128 = 5_000_000_000;

/// How long a backup waits before it tries a busy database again.
pub const BACKUP_RETRY_DELAY_MS: u64 = 10;

/// How often in a row a backup may find its database busy.
pub const BACKUP_MAX_RETRIES: usize = 10;

/// How long a backup may take.
pub const BACKUP_DEADLINE_MS: u64 = 1_000;

/// How many pages a backup copies at a time.
pub const BACKUP_STEP_PAGES: i32 = 100;

/// A value in a row. A real number is kept by its bits.
#[derive(Clone, Debug, PartialEq)]
pub enum Value {
    Null,
    Integer(i64),
    Real(u64),
    Text(String),
    Blob(Vec<u8>),
}

/// A value as the engine hands it out, in the engine's own memory: text may turn out
/// not to be UTF-8.
#[derive(Clone, Debug)]
pub enum RawCell<'a> {
    Null,
    Integer(i64),
    Real(u64),
    Text(&'a [u8]),
    Blob(&'a [u8]),
}

/// Mathematical counterpart of [`Value`].
pub enum ValueModel {
    Null,
    Integer(i64),
    Real(u64),
    Text(Seq<char>),
    Blob(Seq<u8>),
}

/// Mathematical counterpart of [`RawCell`].
pub enum CellModel {
    Null,
    Integer(i64),
    Real(u64),
    Text(Seq<u8>),
    Blob(Seq<u8>),
}

impl View for Value {
    type V = ValueModel;

    open spec fn view(&self) -> ValueModel {
        match *self {
            Value::Null => ValueModel::Null,
            Value::Integer(value) => ValueModel::Integer(value),
            Value::Real(bits) => ValueModel::Real(bits),
            Value::Text(text) => ValueModel::Text(text@),
            Value::Blob(bytes) => ValueModel::Blob(bytes@),
        }
    }
}

impl<'a> View for RawCell<'a> {
    type V = CellModel;

    open spec fn view(&self) -> CellModel {
        match *self {
            RawCell::Null => CellModel::Null,
            RawCell::Integer(value) => CellModel::Integer(value),
            RawCell::Real(bits) => CellModel::Real(bits),
            RawCell::Text(bytes) => CellModel::Text(bytes@),
            RawCell::Blob(bytes) => CellModel::Blob(bytes@),
        }
    }
}

/// A row of values.
#[derive(Clone, Debug, PartialEq)]
pub struct Row {
    values: Vec<Value>,
}

pub open spec fn value_models(values: Seq<Value>) -> Seq<ValueModel> {
    values.map_values(|value: Value| value@)
}

pub open spec fn cell_models(cells: Seq<RawCell<'_>>) -> Seq<CellModel> {
    cells.map_values(|cell: RawCell<'_>| cell@)
}

impl View for Row {
    type V = Seq<ValueModel>;

    closed spec fn view(&self) -> Seq<ValueModel> {
        value_models(self.values@)
    }
}

impl Row {
    pub closed spec fn spec_values(&self) -> Seq<Value> {
        self.values@
    }

    /// What a row shows is what its values are.
    pub proof fn view_is_values(&self)
        ensures
            self@ == value_models(self.spec_values()),
    {
    }

    pub fn new(values: Vec<Value>) -> (row: Self)
        ensures
            row@ == value_models(values@),
            row.spec_values() == values@,
    {
        Row { values }
    }

    pub fn values(&self) -> (values: &Vec<Value>)
        ensures
            values@ == self.spec_values(),
    {
        &self.values
    }

    /// The value of a column, where there is one.
    pub fn get(&self, index: usize) -> (value: Option<&Value>)
        ensures
            match value {
                Some(value) => index < self.spec_values().len() && *value
                    == self.spec_values()[index as int],
                None => index >= self.spec_values().len(),
            },
    {
        if index < self.values.len() {
            Some(&self.values[index])
        } else {
            None
        }
    }
}

pub open spec fn row_models(rows: Seq<Row>) -> Seq<Seq<ValueModel>> {
    rows.map_values(|row: Row| row@)
}

/// How much a query may return.
#[derive(Clone, Copy, Debug, PartialEq, Eq, Structural)]
pub struct QueryLimits {
    pub max_rows: usize,
    pub max_bytes: usize,
}

impl Default for QueryLimits {
    fn default() -> (limits: Self)
        ensures
            limits.max_rows == 1_000,
            limits.max_bytes == 1_048_576,
    {
        QueryLimits { max_rows: 1_000, max_bytes: 1_048_576 }
    }
}

/// What a checkpoint of the log came to.
#[derive(Clone, Copy, Debug, PartialEq, Eq, Structural)]
pub struct Checkpoint {
    pub busy: bool,
    pub log_frames: u32,
    pub checkpointed_frames: u32,
}

/// Why the database did not do what it was asked.
#[derive(Debug)]
pub enum Error {
    Busy,
    AlreadyExists(String),
    TransactionInactive,
    BusyTimeoutTooLarge,
    InvalidLimits,
    ResultLimitExceeded { max_rows: usize, max_bytes: usize },
    IntegrityCheckFailed(String),
    Io(HostError),
    Sqlite(String),
}

impl Error {
    pub open spec fn is_sqlite(&self, message: Seq<char>) -> bool {
        match *self {
            Error::Sqlite(text) => text@ == message,
            _ => false,
        }
    }

    pub open spec fn is_limit(&self, limits: QueryLimits) -> bool {
        match *self {
            Error::ResultLimitExceeded { max_rows, max_bytes } => max_rows == limits.max_rows
                && max_bytes == limits.max_bytes,
            _ => false,
        }
    }

    /// A sentence for people.
    pub open spec fn text(&self) -> Seq<char> {
        match *self {
            Error::Busy => "SQLite is busy"@,
            Error::AlreadyExists(path) => "refusing to overwrite "@ + path@,
            Error::TransactionInactive => "SQLite transaction is no longer active"@,
            Error::BusyTimeoutTooLarge =>
                "SQLite busy timeout exceeds the five-second facade maximum"@,
            Error::InvalidLimits => "SQLite query limits must be nonzero"@,
            Error::ResultLimitExceeded { max_rows, max_bytes } => "SQLite result exceeds "@
                + decimal(max_rows as nat) + " rows or "@ + decimal(max_bytes as nat) + " bytes"@,
            Error::IntegrityCheckFailed(message) => "SQLite integrity check failed: "@ + message@,
            Error::Io(error) => error.message@,
            Error::Sqlite(message) => "SQLite error: "@ + message@,
        }
    }

    pub fn message(&self) -> (message: String)
        ensures
            message@ == self.text(),
    {
        match self {
            Error::Busy => "SQLite is busy".to_owned(),
            Error::AlreadyExists(path) => join2("refusing to overwrite ", path.as_str()),
            Error::TransactionInactive => "SQLite transaction is no longer active".to_owned(),
            Error::BusyTimeoutTooLarge =>
                "SQLite busy timeout exceeds the five-second facade maximum".to_owned(),
            Error::InvalidLimits => "SQLite query limits must be nonzero".to_owned(),
            Error::ResultLimitExceeded { max_rows, max_bytes } => {
                let mut text = join3(
                    "SQLite result exceeds ",
                    decimal_text(*max_rows as u64).as_str(),
                    " rows or ",
                );
                text.append(decimal_text(*max_bytes as u64).as_str());
                text.append(" bytes");
                text
            },
            Error::IntegrityCheckFailed(message) => join2(
                "SQLite integrity check failed: ",
                message.as_str(),
            ),
            Error::Io(error) => error.message.clone(),
            Error::Sqlite(message) => join2("SQLite error: ", message.as_str()),
        }
    }
}

/// A failure of the engine: a database that someone else uses is told apart.
pub fn map_error(busy_or_locked: bool, message: String) -> (error: Error)
    ensures
        if busy_or_locked { error == Error::Busy } else { error.is_sqlite(message@) },
{
    if busy_or_locked {
        Error::Busy
    } else {
        Error::Sqlite(message)
    }
}

/// Refuses to wait longer than callers can be made to.
pub fn check_busy_timeout(nanos: u128) -> (checked: Result<(), Error>)
    ensures
        match checked {
            Ok(()) => nanos <= MAX_BUSY_TIMEOUT_NANOS,
            Err(error) => nanos > MAX_BUSY_TIMEOUT_NANOS && error == Error::BusyTimeoutTooLarge,
        },
{
    if nanos > MAX_BUSY_TIMEOUT_NANOS {
        Err(Error::BusyTimeoutTooLarge)
    } else {
        Ok(())
    }
}

// ---------------------------------------------------------------------------
// Budgets
// ---------------------------------------------------------------------------

/// What a value counts: its bytes, or a machine word.
pub open spec fn cell_cost(cell: CellModel) -> nat {
    match cell {
        CellModel::Text(bytes) => bytes.len(),
        CellModel::Blob(bytes) => bytes.len(),
        _ => 8,
    }
}

pub open spec fn cells_cost(cells: Seq<CellModel>) -> nat
    decreases cells.len(),
{
    if cells.len() == 0 {
        0
    } else {
        cells_cost(cells.drop_last()) + cell_cost(cells.last())
    }
}

/// What a row counts: itself, its cells, and what they hold.
pub open spec fn row_cost(cells: Seq<CellModel>) -> nat {
    vstd::layout::size_of::<Row>() + cells.len() * vstd::layout::size_of::<Value>() + cells_cost(
        cells,
    )
}

pub open spec fn rows_cost(rows: Seq<Seq<CellModel>>) -> nat
    decreases rows.len(),
{
    if rows.len() == 0 { 0 } else { rows_cost(rows.drop_last()) + row_cost(rows.last()) }
}

/// The value that a cell holds, unless it is text that is not UTF-8.
pub open spec fn cell_value(cell: CellModel) -> Option<ValueModel> {
    match cell {
        CellModel::Null => Some(ValueModel::Null),
        CellModel::Integer(value) => Some(ValueModel::Integer(value)),
        CellModel::Real(bits) => Some(ValueModel::Real(bits)),
        CellModel::Text(bytes) => if valid_utf8(bytes) {
            Some(ValueModel::Text(decode_utf8(bytes)))
        } else {
            None
        },
        CellModel::Blob(bytes) => Some(ValueModel::Blob(bytes)),
    }
}

/// The first text of a row that is not UTF-8.
pub open spec fn bad_text(cells: Seq<CellModel>) -> Option<Seq<u8>>
    decreases cells.len(),
{
    if cells.len() == 0 {
        None
    } else {
        match bad_text(cells.drop_last()) {
            Some(bytes) => Some(bytes),
            None => match cells.last() {
                CellModel::Text(bytes) => if valid_utf8(bytes) { None } else { Some(bytes) },
                _ => None,
            },
        }
    }
}

/// The values of a row all of whose text is UTF-8.
pub open spec fn row_values(cells: Seq<CellModel>) -> Seq<ValueModel> {
    cells.map_values(|cell: CellModel| cell_value(cell)->Some_0)
}

fn value_cost(cell: &RawCell<'_>) -> (cost: usize)
    ensures
        cost == cell_cost(cell@),
{
    match cell {
        RawCell::Text(bytes) => bytes.len(),
        RawCell::Blob(bytes) => bytes.len(),
        _ => 8,
    }
}

fn copy_blob(bytes: &[u8]) -> (copy: Vec<u8>)
    ensures
        copy@ == bytes@,
{
    crate::symbolize::codec::copy_bytes(bytes)
}

/// A value out of a cell.
pub fn value_from(cell: &RawCell<'_>) -> (value: Result<Value, Error>)
    ensures
        match value {
            Ok(value) => cell_value(cell@) == Some(value@),
            Err(error) => match cell@ {
                CellModel::Text(bytes) => !valid_utf8(bytes) && error.is_sqlite(
                    "invalid UTF-8 SQLite TEXT: "@ + utf8_fault(bytes),
                ),
                _ => false,
            },
        },
{
    match cell {
        RawCell::Null => Ok(Value::Null),
        RawCell::Integer(value) => Ok(Value::Integer(*value)),
        RawCell::Real(bits) => Ok(Value::Real(*bits)),
        RawCell::Text(bytes) => match text_from_utf8(copy_blob(bytes)) {
            Ok(text) => Ok(Value::Text(text)),
            Err(fault) => Err(
                Error::Sqlite(join2("invalid UTF-8 SQLite TEXT: ", fault.as_str())),
            ),
        },
        RawCell::Blob(bytes) => Ok(Value::Blob(copy_blob(bytes))),
    }
}

/// What is left of the limits of a query.
#[derive(Clone, Copy, Debug)]
pub struct QueryBudget {
    limits: QueryLimits,
    rows: usize,
    used: usize,
}

impl QueryBudget {
    pub closed spec fn spec_limits(&self) -> QueryLimits {
        self.limits
    }

    /// How many rows have been returned.
    pub closed spec fn spec_rows(&self) -> nat {
        self.rows as nat
    }

    /// What they count.
    pub closed spec fn spec_used(&self) -> nat {
        self.used as nat
    }

    pub open spec fn wf(&self) -> bool {
        &&& self.spec_rows() <= self.spec_limits().max_rows
        &&& self.spec_used() <= self.spec_limits().max_bytes
    }

    /// A fresh budget; limits that allow nothing are refused.
    pub fn new(limits: QueryLimits) -> (budget: Result<Self, Error>)
        ensures
            match budget {
                Ok(budget) => limits.max_rows > 0 && limits.max_bytes > 0 && budget.wf()
                    && budget.spec_limits() == limits && budget.spec_rows() == 0
                    && budget.spec_used() == 0,
                Err(error) => (limits.max_rows == 0 || limits.max_bytes == 0) && error
                    == Error::InvalidLimits,
            },
    {
        if limits.max_rows == 0 || limits.max_bytes == 0 {
            return Err(Error::InvalidLimits);
        }
        Ok(QueryBudget { limits, rows: 0, used: 0 })
    }

    /// Whether one more row fits.
    pub open spec fn fits(&self, cells: Seq<CellModel>) -> bool {
        self.spec_rows() < self.spec_limits().max_rows && self.spec_used() + row_cost(cells)
            <= self.spec_limits().max_bytes
    }

    fn exceeded(&self) -> (error: Error)
        ensures
            error.is_limit(self.spec_limits()),
    {
        Error::ResultLimitExceeded {
            max_rows: self.limits.max_rows,
            max_bytes: self.limits.max_bytes,
        }
    }

    /// Takes the next row of a result. It is counted before anything of it is
    /// copied.
    pub fn take_row(&mut self, cells: &Vec<RawCell<'_>>) -> (row: Result<Row, Error>)
        requires
            old(self).wf(),
        ensures
            final(self).wf(),
            final(self).spec_limits() == old(self).spec_limits(),
            match row {
                Ok(row) => {
                    &&& old(self).fits(cell_models(cells@))
                    &&& bad_text(cell_models(cells@)) is None
                    &&& row@ == row_values(cell_models(cells@))
                    &&& final(self).spec_rows() == old(self).spec_rows() + 1
                    &&& final(self).spec_used() == old(self).spec_used() + row_cost(
                        cell_models(cells@),
                    )
                },
                Err(error) => if !old(self).fits(cell_models(cells@)) {
                    error.is_limit(old(self).spec_limits())
                } else {
                    bad_text(cell_models(cells@)) is Some && error.is_sqlite(
                        "invalid UTF-8 SQLite TEXT: "@ + utf8_fault(
                            bad_text(cell_models(cells@))->Some_0,
                        ),
                    )
                },
            },
    {
        let ghost all = cell_models(cells@);
        if self.rows == self.limits.max_rows {
            return Err(self.exceeded());
        }
        let row_size: usize = core::mem::size_of::<Row>();
        let cell_size: usize = core::mem::size_of::<Value>();
        let cells_size = match cells.len().checked_mul(cell_size) {
            Some(size) => size,
            None => {
                assert(row_cost(all) > usize::MAX);
                return Err(self.exceeded());
            },
        };
        let mut cost = match row_size.checked_add(cells_size) {
            Some(cost) => cost,
            None => {
                return Err(self.exceeded());
            },
        };
        let ghost fixed = cost as nat;
        assert(all.take(0) =~= Seq::<CellModel>::empty());
        for at in 0..cells.len()
            invariant
                all == cell_models(cells@),
                cost == fixed + cells_cost(all.take(at as int)),
                row_cost(all) == fixed + cells_cost(all),
                self.wf(),
                *self == *old(self),
        {
            proof {
                assert(all.take(at + 1).drop_last() =~= all.take(at as int));
                assert(all.take(at + 1).last() == cells@[at as int]@);
                lemma_cells_cost_grows(all, (at + 1) as nat);
            }
            cost = match cost.checked_add(value_cost(&cells[at])) {
                Some(cost) => cost,
                None => {
                    return Err(self.exceeded());
                },
            };
        }
        assert(all.take(all.len() as int) =~= all);
        let used = match self.used.checked_add(cost) {
            Some(used) => used,
            None => {
                return Err(self.exceeded());
            },
        };
        if used > self.limits.max_bytes {
            return Err(self.exceeded());
        }
        let mut values: Vec<Value> = Vec::new();
        proof {
            assert(value_models(values@) =~= row_values(all).take(0));
            assert(all.take(0) =~= Seq::<CellModel>::empty());
        }
        for at in 0..cells.len()
            invariant
                all == cell_models(cells@),
                value_models(values@) == row_values(all).take(at as int),
                bad_text(all.take(at as int)) is None,
                self.wf(),
                *self == *old(self),
                old(self).fits(all),
        {
            proof {
                assert(all.take(at + 1).drop_last() =~= all.take(at as int));
                assert(all.take(at + 1).last() == cells@[at as int]@);
            }
            match value_from(&cells[at]) {
                Ok(value) => {
                    let ghost before = value_models(values@);
                    values.push(value);
                    proof {
                        assert(row_values(all)[at as int] == value@);
                        assert(value_models(values@) =~= before.push(value@));
                        assert(value_models(values@) =~= row_values(all).take(at + 1));
                    }
                },
                Err(error) => {
                    proof {
                        lemma_bad_text_stays(all, (at + 1) as nat);
                    }
                    return Err(error);
                },
            }
        }
        assert(row_values(all).take(all.len() as int) =~= row_values(all));
        assert(all.take(all.len() as int) =~= all);
        self.rows = self.rows + 1;
        self.used = used;
        Ok(Row::new(values))
    }
}

proof fn lemma_cells_cost_grows(cells: Seq<CellModel>, upto: nat)
    requires
        upto <= cells.len(),
    ensures
        cells_cost(cells.take(upto as int)) <= cells_cost(cells),
    decreases cells.len() - upto,
{
    if upto == cells.len() {
        assert(cells.take(upto as int) =~= cells);
    } else {
        let next = cells.take((upto + 1) as int);
        assert(next.drop_last() =~= cells.take(upto as int));
        lemma_cells_cost_grows(cells, upto + 1);
    }
}

proof fn lemma_bad_text_stays(cells: Seq<CellModel>, upto: nat)
    requires
        upto <= cells.len(),
        bad_text(cells.take(upto as int)) is Some,
    ensures
        bad_text(cells) == bad_text(cells.take(upto as int)),
    decreases cells.len() - upto,
{
    if upto == cells.len() {
        assert(cells.take(upto as int) =~= cells);
    } else {
        let next = cells.take((upto + 1) as int);
        assert(next.drop_last() =~= cells.take(upto as int));
        lemma_bad_text_stays(cells, upto + 1);
    }
}

/// What is wrong with a result.
pub enum QueryFault {
    /// It is larger than allowed.
    TooLarge,
    /// It holds text that is not UTF-8.
    BadText(Seq<u8>),
}

/// The first thing that is wrong with a result, row by row: a row too many or
/// too large counts before what is in it.
pub open spec fn query_fault(limits: QueryLimits, rows: Seq<Seq<CellModel>>) -> Option<QueryFault>
    decreases rows.len(),
{
    if rows.len() == 0 {
        None
    } else {
        match query_fault(limits, rows.drop_last()) {
            Some(fault) => Some(fault),
            None => if rows.len() > limits.max_rows || rows_cost(rows) > limits.max_bytes {
                Some(QueryFault::TooLarge)
            } else {
                match bad_text(rows.last()) {
                    Some(bytes) => Some(QueryFault::BadText(bytes)),
                    None => None,
                }
            },
        }
    }
}

pub open spec fn cell_rows(rows: Seq<Vec<RawCell<'_>>>) -> Seq<Seq<CellModel>> {
    rows.map_values(|cells: Vec<RawCell<'_>>| cell_models(cells@))
}

/// A whole result within limits, or the first thing that is wrong with it.
pub fn collect_rows(limits: QueryLimits, rows: &Vec<Vec<RawCell<'_>>>) -> (collected: Result<
    Vec<Row>,
    Error,
>)
    ensures
        if limits.max_rows == 0 || limits.max_bytes == 0 {
            collected is Err && collected->Err_0 == Error::InvalidLimits
        } else {
            match (query_fault(limits, cell_rows(rows@)), collected) {
                (None, Ok(collected)) => row_models(collected@) == cell_rows(rows@).map_values(
                    |cells: Seq<CellModel>| row_values(cells),
                ),
                (Some(QueryFault::TooLarge), Err(error)) => error.is_limit(limits),
                (Some(QueryFault::BadText(bytes)), Err(error)) => error.is_sqlite(
                    "invalid UTF-8 SQLite TEXT: "@ + utf8_fault(bytes),
                ),
                _ => false,
            }
        },
{
    let mut budget = match QueryBudget::new(limits) {
        Ok(budget) => budget,
        Err(error) => {
            return Err(error);
        },
    };
    let ghost all = cell_rows(rows@);
    let ghost expected = all.map_values(|cells: Seq<CellModel>| row_values(cells));
    let mut collected: Vec<Row> = Vec::new();
    proof {
        assert(all.take(0) =~= Seq::<Seq<CellModel>>::empty());
        assert(row_models(collected@) =~= expected.take(0));
    }
    for at in 0..rows.len()
        invariant
            limits.max_rows > 0 && limits.max_bytes > 0,
            all == cell_rows(rows@),
            expected == all.map_values(|cells: Seq<CellModel>| row_values(cells)),
            budget.wf(),
            budget.spec_limits() == limits,
            budget.spec_rows() == at,
            budget.spec_used() == rows_cost(all.take(at as int)),
            query_fault(limits, all.take(at as int)) is None,
            row_models(collected@) == expected.take(at as int),
    {
        proof {
            assert(all.take(at + 1).drop_last() =~= all.take(at as int));
            assert(all.take(at + 1).last() == cell_models(rows@[at as int]@));
        }
        match budget.take_row(&rows[at]) {
            Ok(row) => {
                let ghost before = row_models(collected@);
                collected.push(row);
                proof {
                    assert(expected[at as int] == row@);
                    assert(row_models(collected@) =~= before.push(row@));
                    assert(row_models(collected@) =~= expected.take(at + 1));
                }
            },
            Err(error) => {
                proof {
                    lemma_fault_stays(limits, all, (at + 1) as nat);
                }
                return Err(error);
            },
        }
    }
    assert(all.take(all.len() as int) =~= all);
    assert(expected.take(expected.len() as int) =~= expected);
    Ok(collected)
}

proof fn lemma_fault_stays(limits: QueryLimits, rows: Seq<Seq<CellModel>>, upto: nat)
    requires
        upto <= rows.len(),
        query_fault(limits, rows.take(upto as int)) is Some,
    ensures
        query_fault(limits, rows) == query_fault(limits, rows.take(upto as int)),
    decreases rows.len() - upto,
{
    if upto == rows.len() {
        assert(rows.take(upto as int) =~= rows);
    } else {
        let next = rows.take((upto + 1) as int);
        assert(next.drop_last() =~= rows.take(upto as int));
        lemma_fault_stays(limits, rows, upto + 1);
    }
}

/// A result that is returned at all is within its limits.
pub proof fn returned_results_are_bounded(limits: QueryLimits, rows: Seq<Seq<CellModel>>)
    requires
        query_fault(limits, rows) is None,
    ensures
        rows.len() <= limits.max_rows,
        rows_cost(rows) <= limits.max_bytes,
{
}

// ---------------------------------------------------------------------------
// Answers of the engine
// ---------------------------------------------------------------------------

/// A count in an answer: not negative, kept to its low 32 bits.
pub open spec fn count_of(value: Value) -> Option<u32> {
    match value {
        Value::Integer(value) => if value >= 0 {
            Some((value as int % 0x1_0000_0000) as u32)
        } else {
            None
        },
        _ => None,
    }
}

fn count_from(value: &Value) -> (count: Option<u32>)
    ensures
        count == count_of(*value),
{
    match value {
        Value::Integer(value) => if *value >= 0 {
            Some((*value as u64 % 0x1_0000_0000) as u32)
        } else {
            None
        },
        _ => None,
    }
}

/// How much a checkpoint may answer: one row of a few numbers.
pub fn checkpoint_limits() -> (limits: QueryLimits)
    ensures
        limits.max_rows == 1,
        limits.max_bytes == 256,
{
    QueryLimits { max_rows: 1, max_bytes: 256 }
}

/// How much a check of the database may answer.
pub fn integrity_limits() -> (limits: QueryLimits)
    ensures
        limits.max_rows == 2,
        limits.max_bytes == 4096,
{
    QueryLimits { max_rows: 2, max_bytes: 4096 }
}

/// The checkpoint that an answer describes: three counts, the first of which
/// tells whether the database was busy.
pub open spec fn checkpoint_of(rows: Seq<Row>) -> Option<Checkpoint> {
    if rows.len() == 0 || rows[0].spec_values().len() < 3 {
        None
    } else {
        let values = rows[0].spec_values();
        match (count_of(values[0]), count_of(values[1]), count_of(values[2])) {
            (Some(busy), Some(log_frames), Some(checkpointed_frames)) => Some(
                Checkpoint { busy: busy != 0, log_frames, checkpointed_frames },
            ),
            _ => None,
        }
    }
}

pub fn read_checkpoint(rows: &Vec<Row>) -> (checkpoint: Result<Checkpoint, Error>)
    ensures
        match checkpoint {
            Ok(checkpoint) => checkpoint_of(rows@) == Some(checkpoint),
            Err(error) => checkpoint_of(rows@) is None && error.is_sqlite(
                "invalid wal_checkpoint result"@,
            ),
        },
{
    if rows.len() == 0 || rows[0].values.len() < 3 {
        return Err(Error::Sqlite("invalid wal_checkpoint result".to_owned()));
    }
    let values = &rows[0].values;
    match (count_from(&values[0]), count_from(&values[1]), count_from(&values[2])) {
        (Some(busy), Some(log_frames), Some(checkpointed_frames)) => Ok(
            Checkpoint { busy: busy != 0, log_frames, checkpointed_frames },
        ),
        _ => Err(Error::Sqlite("invalid wal_checkpoint result".to_owned())),
    }
}

/// The first value of an answer, where it is text.
pub open spec fn first_text(rows: Seq<Row>) -> Option<Seq<char>> {
    if rows.len() == 0 || rows[0].spec_values().len() == 0 {
        None
    } else {
        match rows[0].spec_values()[0] {
            Value::Text(text) => Some(text@),
            _ => None,
        }
    }
}

/// Whether a database is sound, by what the engine says of it.
pub fn read_integrity(rows: &Vec<Row>) -> (sound: Result<(), Error>)
    ensures
        match sound {
            Ok(()) => first_text(rows@) == Some("ok"@),
            Err(Error::IntegrityCheckFailed(message)) => first_text(rows@) == Some(message@)
                && message@ != "ok"@,
            Err(error) => first_text(rows@) is None && error.is_sqlite(
                "invalid integrity_check result"@,
            ),
        },
{
    if rows.len() > 0 {
        if let Some(value) = rows[0].get(0) {
            if let Value::Text(text) = value {
                if same_text(text.as_str(), "ok") {
                    return Ok(());
                }
                return Err(Error::IntegrityCheckFailed(text.clone()));
            }
        }
    }
    Err(Error::Sqlite("invalid integrity_check result".to_owned()))
}

// ---------------------------------------------------------------------------
// Transactions
// ---------------------------------------------------------------------------

/// How a transaction answers the wish to run a statement.
pub open spec fn is_admission(active: bool, answer: Result<(), Error>) -> bool {
    match answer {
        Ok(()) => active,
        Err(error) => !active && error == Error::TransactionInactive,
    }
}

/// Whether a statement is run: only while the transaction is open.
pub open spec fn runs(active: bool) -> bool {
    active
}

/// Whether a transaction is still open after a statement.
pub open spec fn stays_active(active: bool, failed: bool) -> bool {
    active && !failed
}

/// Whether a statement makes the engine roll back.
pub open spec fn is_rolled_back(active: bool, failed: bool) -> bool {
    active && failed
}

/// A transaction: whether it is still open.
#[derive(Clone, Copy, Debug, PartialEq, Eq, Structural)]
pub struct Transaction {
    active: bool,
}

impl Transaction {
    pub closed spec fn spec_active(&self) -> bool {
        self.active
    }

    pub fn begun() -> (state: Self)
        ensures
            state.spec_active(),
    {
        Transaction { active: true }
    }

    pub fn require_active(&self) -> (checked: Result<(), Error>)
        ensures
            is_admission(self.spec_active(), checked),
    {
        if self.active {
            Ok(())
        } else {
            Err(Error::TransactionInactive)
        }
    }

    /// Runs a statement, unless the transaction has ended: then it is refused and not run.
    /// The first failure ends the transaction; whether it has to be rolled back is handed
    /// back, too.
    fn statement<T, F: FnOnce() -> Result<T, Error>>(&mut self, run: F) -> (outcome: (
        Result<T, Error>,
        bool,
    ))
        requires
            runs(old(self).spec_active()) ==> run.requires(()),
        ensures
            if runs(old(self).spec_active()) {
                run.ensures((), outcome.0)
            } else {
                outcome.0 is Err && outcome.0->Err_0 == Error::TransactionInactive
            },
            outcome.1 == is_rolled_back(old(self).spec_active(), outcome.0 is Err),
            final(self).spec_active() == stays_active(old(self).spec_active(), outcome.0 is Err),
    {
        match self.require_active() {
            Ok(()) => {},
            Err(error) => {
                return (Err(error), false);
            },
        }
        let result = run();
        let rolls_back = self.after_statement(result.is_err());
        (result, rolls_back)
    }

    /// Runs a statement that counts the rows it changes.
    pub fn execute<F: FnOnce() -> Result<usize, Error>>(&mut self, run: F) -> (outcome: (
        Result<usize, Error>,
        bool,
    ))
        requires
            runs(old(self).spec_active()) ==> run.requires(()),
        ensures
            if runs(old(self).spec_active()) {
                run.ensures((), outcome.0)
            } else {
                outcome.0 is Err && outcome.0->Err_0 == Error::TransactionInactive
            },
            outcome.1 == is_rolled_back(old(self).spec_active(), outcome.0 is Err),
            final(self).spec_active() == stays_active(old(self).spec_active(), outcome.0 is Err),
    {
        self.statement(run)
    }

    /// Runs a statement that returns rows.
    pub fn query<F: FnOnce() -> Result<Vec<Row>, Error>>(&mut self, run: F) -> (outcome: (
        Result<Vec<Row>, Error>,
        bool,
    ))
        requires
            runs(old(self).spec_active()) ==> run.requires(()),
        ensures
            if runs(old(self).spec_active()) {
                run.ensures((), outcome.0)
            } else {
                outcome.0 is Err && outcome.0->Err_0 == Error::TransactionInactive
            },
            outcome.1 == is_rolled_back(old(self).spec_active(), outcome.0 is Err),
            final(self).spec_active() == stays_active(old(self).spec_active(), outcome.0 is Err),
    {
        self.statement(run)
    }

    /// Takes the outcome of a statement. The first failure ends the transaction;
    /// whether it has to be rolled back is handed back.
    pub fn after_statement(&mut self, failed: bool) -> (rolls_back: bool)
        ensures
            rolls_back == is_rolled_back(old(self).spec_active(), failed),
            final(self).spec_active() == stays_active(old(self).spec_active(), failed),
    {
        if failed {
            self.abort()
        } else {
            false
        }
    }

    /// Ends the transaction; whether it has to be rolled back is handed back.
    pub fn abort(&mut self) -> (rolls_back: bool)
        ensures
            rolls_back == old(self).spec_active(),
            !final(self).spec_active(),
    {
        let rolls_back = self.active;
        self.active = false;
        rolls_back
    }

    /// Takes the outcome of a commit or a rollback. One that failed leaves the
    /// transaction open, to be aborted.
    pub fn after_end(&mut self, succeeded: bool)
        ensures
            final(self).spec_active() == (old(self).spec_active() && !succeeded),
    {
        if succeeded {
            self.active = false;
        }
    }
}

/// Whether a transaction is still open after statements, by which of them failed. One
/// that is refused has failed, too.
pub open spec fn active_after(failures: Seq<bool>) -> bool
    decreases failures.len(),
{
    if failures.len() == 0 {
        true
    } else {
        stays_active(active_after(failures.drop_last()), failures.last())
    }
}

/// The statements that were run and not rolled back, by number: a statement is run only
/// while the transaction is open, and a rollback undoes all that came before it.
pub open spec fn kept_after(failures: Seq<bool>) -> Seq<int>
    decreases failures.len(),
{
    if failures.len() == 0 {
        Seq::empty()
    } else {
        let active = active_after(failures.drop_last());
        let before = kept_after(failures.drop_last());
        if is_rolled_back(active, failures.last()) {
            Seq::empty()
        } else if runs(active) {
            before.push(failures.len() - 1)
        } else {
            before
        }
    }
}

/// Once a statement has failed, every later one is refused as coming after the end and
/// is not run, and nothing of what was run before is kept.
pub proof fn failed_transactions_keep_nothing(
    failures: Seq<bool>,
    failed: int,
    state: Transaction,
)
    requires
        0 <= failed < failures.len(),
        failures[failed],
        state.spec_active() == active_after(failures),
    ensures
        forall|answer: Result<(), Error>| #[trigger]
            is_admission(state.spec_active(), answer) ==> answer is Err && answer->Err_0
                == Error::TransactionInactive,
        !runs(state.spec_active()),
        kept_after(failures) == Seq::<int>::empty(),
    decreases failures.len(),
{
    let before = failures.drop_last();
    lemma_open_means_no_failure(before);
    if failed < before.len() {
        assert(before[failed]);
        let earlier = Transaction { active: active_after(before) };
        failed_transactions_keep_nothing(before, failed, earlier);
    } else if !active_after(before) {
        let at = choose|i: int| 0 <= i < before.len() && before[i];
        let earlier = Transaction { active: active_after(before) };
        failed_transactions_keep_nothing(before, at, earlier);
    }
}

/// A transaction in which nothing has failed is open, and keeps every statement.
pub proof fn sound_transactions_keep_everything(failures: Seq<bool>)
    requires
        forall|i: int| 0 <= i < failures.len() ==> !failures[i],
    ensures
        active_after(failures),
        kept_after(failures) == Seq::new(failures.len(), |i: int| i),
    decreases failures.len(),
{
    if failures.len() > 0 {
        let before = failures.drop_last();
        assert forall|i: int| 0 <= i < before.len() implies !before[i] by {
            assert(before[i] == failures[i]);
        }
        sound_transactions_keep_everything(before);
    }
    assert(kept_after(failures) =~= Seq::new(failures.len(), |i: int| i));
}

proof fn lemma_open_means_no_failure(failures: Seq<bool>)
    ensures
        active_after(failures) == forall|i: int| 0 <= i < failures.len() ==> !failures[i],
    decreases failures.len(),
{
    if failures.len() > 0 {
        let before = failures.drop_last();
        lemma_open_means_no_failure(before);
        if active_after(failures) {
            assert forall|i: int| 0 <= i < failures.len() implies !failures[i] by {
                if i < before.len() {
                    assert(before[i] == failures[i]);
                }
            }
        } else if active_after(before) {
            assert(failures[failures.len() - 1]);
        } else {
            let i = choose|i: int| 0 <= i < before.len() && before[i];
            assert(failures[i]);
        }
    }
}

// ---------------------------------------------------------------------------
// Backups
// ---------------------------------------------------------------------------

/// What one step of a backup reported.
#[derive(Clone, Copy, Debug, PartialEq, Eq, Structural)]
pub enum BackupStep {
    Finished,
    More,
    Busy,
    Locked,
    Unknown,
}

/// What to do after a step.
#[derive(Debug)]
pub enum BackupDecision {
    /// The copy is complete.
    Finish,
    /// Copy on.
    Continue,
    /// Wait a little, then copy on.
    Wait,
    Fail(Error),
}

/// How often in a row the database was busy.
#[derive(Clone, Copy, Debug, PartialEq, Eq, Structural)]
pub struct BackupProgress {
    busy_retries: usize,
}

impl BackupProgress {
    pub closed spec fn spec_retries(&self) -> nat {
        self.busy_retries as nat
    }

    pub open spec fn wf(&self) -> bool {
        self.spec_retries() < BACKUP_MAX_RETRIES
    }

    pub fn new() -> (progress: Self)
        ensures
            progress.wf(),
            progress.spec_retries() == 0,
    {
        BackupProgress { busy_retries: 0 }
    }

    /// Takes the outcome of a step. Progress clears the count of retries, and
    /// the last of them gives up.
    pub fn after_step(&mut self, step: BackupStep) -> (decision: BackupDecision)
        requires
            old(self).wf(),
        ensures
            match decision {
                BackupDecision::Finish => step == BackupStep::Finished && *final(self) == *old(
                    self,
                ),
                BackupDecision::Continue => step == BackupStep::More && final(self).spec_retries()
                    == 0,
                BackupDecision::Wait => (step == BackupStep::Busy || step == BackupStep::Locked)
                    && final(self).spec_retries() == old(self).spec_retries() + 1
                    && final(self).wf(),
                BackupDecision::Fail(error) => match step {
                    BackupStep::Busy => error == Error::Busy && old(self).spec_retries() + 1
                        == BACKUP_MAX_RETRIES,
                    BackupStep::Locked => error == Error::Busy && old(self).spec_retries() + 1
                        == BACKUP_MAX_RETRIES,
                    BackupStep::Unknown => error.is_sqlite("unsupported SQLite backup state"@),
                    _ => false,
                },
            },
    {
        match step {
            BackupStep::Finished => BackupDecision::Finish,
            BackupStep::More => {
                self.busy_retries = 0;
                BackupDecision::Continue
            },
            BackupStep::Unknown => BackupDecision::Fail(
                Error::Sqlite("unsupported SQLite backup state".to_owned()),
            ),
            _ => {
                self.busy_retries = self.busy_retries + 1;
                if self.busy_retries == BACKUP_MAX_RETRIES {
                    BackupDecision::Fail(Error::Busy)
                } else {
                    BackupDecision::Wait
                }
            },
        }
    }
}

/// Whether a backup may go on after so many nanoseconds.
pub fn check_deadline(elapsed_nanos: u128) -> (checked: Result<(), Error>)
    ensures
        match checked {
            Ok(()) => elapsed_nanos < BACKUP_DEADLINE_MS * 1_000_000,
            Err(error) => elapsed_nanos >= BACKUP_DEADLINE_MS * 1_000_000 && error == Error::Busy,
        },
{
    if elapsed_nanos >= BACKUP_DEADLINE_MS as u128 * 1_000_000 {
        Err(Error::Busy)
    } else {
        Ok(())
    }
}

/// Where a backup stands.
#[derive(Clone, Copy, Debug, PartialEq, Eq, Structural)]
pub enum BackupStage {
    /// Look whether something is at the destination.
    Look,
    /// Make a directory beside the destination.
    Stage,
    /// Copy the database into it, until the copy is complete.
    Copy,
    /// Close the copy and make it durable.
    Sync,
    /// Give the copy its name at the destination, if that is still free.
    Publish,
    Done,
    /// Report the failure; the directory is removed with the copy in it.
    Failed,
}

/// The stage after the work of `stage` was tried.
pub open spec fn backup_next(stage: BackupStage, succeeded: bool) -> BackupStage {
    if !succeeded && stage != BackupStage::Done {
        BackupStage::Failed
    } else {
        match stage {
            BackupStage::Look => BackupStage::Stage,
            BackupStage::Stage => BackupStage::Copy,
            BackupStage::Copy => BackupStage::Sync,
            BackupStage::Sync => BackupStage::Publish,
            BackupStage::Publish => BackupStage::Done,
            BackupStage::Done => BackupStage::Done,
            BackupStage::Failed => BackupStage::Failed,
        }
    }
}

/// [`backup_next`] as code.
pub fn backup_to(stage: BackupStage, succeeded: bool) -> (next: BackupStage)
    ensures
        next == backup_next(stage, succeeded),
{
    if !succeeded && stage != BackupStage::Done {
        return BackupStage::Failed;
    }
    match stage {
        BackupStage::Look => BackupStage::Stage,
        BackupStage::Stage => BackupStage::Copy,
        BackupStage::Copy => BackupStage::Sync,
        BackupStage::Sync => BackupStage::Publish,
        BackupStage::Publish => BackupStage::Done,
        BackupStage::Done => BackupStage::Done,
        BackupStage::Failed => BackupStage::Failed,
    }
}

/// The stage that a history of outcomes leads to.
pub open spec fn backup_after(outcomes: Seq<bool>) -> BackupStage
    decreases outcomes.len(),
{
    if outcomes.len() == 0 {
        BackupStage::Look
    } else {
        backup_next(backup_after(outcomes.drop_last()), outcomes.last())
    }
}

spec fn all_succeeded(outcomes: Seq<bool>) -> bool {
    forall|i: int| 0 <= i < outcomes.len() ==> #[trigger] outcomes[i]
}

proof fn lemma_backup_history(outcomes: Seq<bool>)
    ensures
        match backup_after(outcomes) {
            BackupStage::Look => outcomes.len() == 0,
            BackupStage::Stage => outcomes.len() == 1 && all_succeeded(outcomes),
            BackupStage::Copy => outcomes.len() == 2 && all_succeeded(outcomes),
            BackupStage::Sync => outcomes.len() == 3 && all_succeeded(outcomes),
            BackupStage::Publish => outcomes.len() == 4 && all_succeeded(outcomes),
            BackupStage::Done => outcomes.len() >= 5 && all_succeeded(outcomes.take(5)),
            BackupStage::Failed => outcomes.len() > 0 && !all_succeeded(outcomes),
        },
    decreases outcomes.len(),
{
    if outcomes.len() > 0 {
        let before = outcomes.drop_last();
        lemma_backup_history(before);
        let last = outcomes.len() - 1;
        assert(outcomes[last] == outcomes.last());
        assert forall|i: int| 0 <= i < before.len() implies #[trigger] outcomes[i] == before[i] by {
        }
        if backup_after(before) == BackupStage::Failed {
            let i = choose|i: int| 0 <= i < before.len() && !#[trigger] before[i];
            assert(!outcomes[i]);
        }
        if backup_after(before) == BackupStage::Done {
            assert(outcomes.take(5) =~= before.take(5));
        }
        if backup_after(before) == BackupStage::Publish {
            assert(outcomes.take(5) =~= outcomes);
        }
    }
}

/// A copy gets its name only after nothing was found there, the copy was completed
/// and it was made durable; a backup is done only after that.
pub proof fn only_complete_backups_are_published(outcomes: Seq<bool>)
    ensures
        backup_after(outcomes) == BackupStage::Publish ==> outcomes == seq![true, true, true, true],
        backup_after(outcomes) == BackupStage::Done ==> outcomes.take(5) == seq![
            true,
            true,
            true,
            true,
            true,
        ],
{
    lemma_backup_history(outcomes);
    if backup_after(outcomes) == BackupStage::Publish {
        assert(outcomes =~= seq![true, true, true, true]);
    }
    if backup_after(outcomes) == BackupStage::Done {
        let five = outcomes.take(5);
        assert(five[0] && five[1] && five[2] && five[3] && five[4]);
        assert(five =~= seq![true, true, true, true, true]);
    }
}

/// Refuses to copy over something that is there.
pub fn check_destination(path: &str, exists: bool) -> (checked: Result<(), Error>)
    ensures
        match checked {
            Ok(()) => !exists,
            Err(Error::AlreadyExists(reported)) => exists && reported@ == path@,
            Err(_) => false,
        },
{
    if exists {
        Err(Error::AlreadyExists(path.to_owned()))
    } else {
        Ok(())
    }
}

/// The directory to copy in, and the front of the name of the directory that is
/// made there for the copy.
pub fn staging_place(parent: Option<String>, file_name: Option<String>) -> (place: Result<
    (String, String),
    Error,
>)
    ensures
        match (file_name, place) {
            (None, Err(error)) => error.is_sqlite("backup destination has no file name"@),
            (Some(name), Ok((directory, prefix))) => prefix@ == "."@ + name@
                + ".kernal-api-backup-"@ && directory@ == match parent {
                Some(parent) => if parent@.len() == 0 { "."@ } else { parent@ },
                None => "."@,
            },
            _ => false,
        },
{
    let name = match file_name {
        Some(name) => name,
        None => {
            return Err(Error::Sqlite("backup destination has no file name".to_owned()));
        },
    };
    let directory = match parent {
        Some(parent) => if chars_of(parent.as_str()).len() == 0 {
            ".".to_owned()
        } else {
            parent
        },
        None => ".".to_owned(),
    };
    Ok((directory, join3(".", name.as_str(), ".kernal-api-backup-")))
}

/// What putting the finished copy in its place came to: it never takes the place
/// of something that appeared meanwhile.
pub fn publish_result(path: &str, linked: Result<(), HostError>) -> (published: Result<(), Error>)
    ensures
        match (linked, published) {
            (Ok(()), Ok(())) => true,
            (Err(error), Err(Error::AlreadyExists(reported))) => error.kind
                == HostErrorKind::AlreadyExists && reported@ == path@,
            (Err(error), Err(Error::Io(reported))) => error.kind != HostErrorKind::AlreadyExists
                && reported == error,
            _ => false,
        },
{
    match linked {
        Ok(()) => Ok(()),
        Err(error) => if error.kind == HostErrorKind::AlreadyExists {
            Err(Error::AlreadyExists(path.to_owned()))
        } else {
            Err(Error::Io(error))
        },
    }
}

// ---------------------------------------------------------------------------
// What reading keeps
// ---------------------------------------------------------------------------

/// Reading a cell loses nothing: an integer is that very number, a real number has the same
/// bits, a blob the same bytes, and a text is written in UTF-8 with just the bytes of the
/// cell. Only text that is not UTF-8 has no value.
pub proof fn cells_are_read_as_they_are(cell: RawCell<'_>, value: Value)
    ensures
        cell_value(cell@) == Some(value@) <==> match (cell, value) {
            (RawCell::Null, Value::Null) => true,
            (RawCell::Integer(stored), Value::Integer(read)) => read == stored,
            (RawCell::Real(stored), Value::Real(read)) => read == stored,
            (RawCell::Text(stored), Value::Text(read)) => encode_utf8(read@) == stored@,
            (RawCell::Blob(stored), Value::Blob(read)) => read@ == stored@,
            _ => false,
        },
        cell_value(cell@) is None <==> match cell {
            RawCell::Text(stored) => !valid_utf8(stored@),
            _ => false,
        },
{
    if let RawCell::Text(stored) = cell {
        if valid_utf8(stored@) {
            vstd::utf8::decode_utf8_encode_utf8(stored@);
        }
        if let Value::Text(read) = value {
            vstd::utf8::encode_utf8_decode_utf8(read@);
            vstd::utf8::encode_utf8_valid_utf8(read@);
        }
    }
}

/// Two cells that give the same value are the same cell.
pub proof fn different_cells_have_different_values(first: CellModel, second: CellModel)
    requires
        cell_value(first) is Some,
        cell_value(first) == cell_value(second),
    ensures
        first == second,
{
    if let (CellModel::Text(a), CellModel::Text(b)) = (first, second) {
        vstd::utf8::decode_utf8_encode_utf8(a);
        vstd::utf8::decode_utf8_encode_utf8(b);
    }
}

/// A row has as many values as it has cells, each in its place, and is refused for its text
/// only because of the first text that is not UTF-8.
pub proof fn rows_keep_every_cell(cells: Seq<CellModel>)
    ensures
        row_values(cells).len() == cells.len(),
        bad_text(cells) is None ==> forall|i: int|
            0 <= i < cells.len() ==> Some(#[trigger] row_values(cells)[i]) == cell_value(cells[i]),
        bad_text(cells) is None <==> forall|i: int|
            0 <= i < cells.len() ==> is_readable(#[trigger] cells[i]),
        bad_text(cells) is Some ==> exists|i: int|
            {
                &&& 0 <= i < cells.len()
                &&& #[trigger] cells[i] == CellModel::Text(bad_text(cells)->Some_0)
                &&& !is_readable(cells[i])
                &&& forall|j: int| 0 <= j < i ==> is_readable(#[trigger] cells[j])
            },
    decreases cells.len(),
{
    if cells.len() > 0 {
        let front = cells.drop_last();
        rows_keep_every_cell(front);
        let last = cells.len() - 1;
        assert forall|i: int| 0 <= i < front.len() implies #[trigger] cells[i] == front[i] by {}
        if bad_text(front) is Some {
            let i = choose|i: int|
                {
                    &&& 0 <= i < front.len()
                    &&& #[trigger] front[i] == CellModel::Text(bad_text(front)->Some_0)
                    &&& !is_readable(front[i])
                    &&& forall|j: int| 0 <= j < i ==> is_readable(#[trigger] front[j])
                };
            assert(cells[i] == CellModel::Text(bad_text(cells)->Some_0));
            assert forall|j: int| 0 <= j < i implies is_readable(#[trigger] cells[j]) by {
                assert(is_readable(front[j]));
            }
        } else {
            assert forall|i: int| 0 <= i < front.len() implies is_readable(#[trigger] cells[i]) by {
                assert(is_readable(front[i]));
            }
            if bad_text(cells) is Some {
                assert(cells[last] == CellModel::Text(bad_text(cells)->Some_0));
            } else {
                assert forall|i: int| 0 <= i < cells.len() implies Some(
                    #[trigger] row_values(cells)[i],
                ) == cell_value(cells[i]) by {
                    if i < last {
                        assert(is_readable(front[i]));
                    }
                }
            }
        }
    }
}

/// Whether a cell is anything but text that is not UTF-8.
pub open spec fn is_readable(cell: CellModel) -> bool {
    match cell {
        CellModel::Text(bytes) => valid_utf8(bytes),
        _ => true,
    }
}

/// What a row counts: an empty one itself, and each further cell its own size and, for text
/// and blobs, every byte in it, for everything else a machine word.
pub proof fn every_byte_counts(cells: Seq<CellModel>, cell: CellModel)
    ensures
        row_cost(Seq::empty()) == vstd::layout::size_of::<Row>(),
        row_cost(cells.push(cell)) == row_cost(cells) + vstd::layout::size_of::<Value>() + match cell {
            CellModel::Text(bytes) => bytes.len(),
            CellModel::Blob(bytes) => bytes.len(),
            CellModel::Null | CellModel::Integer(_) | CellModel::Real(_) => 8,
        },
{
    assert(cells.push(cell).drop_last() =~= cells);
    let n = cells.len();
    let size = vstd::layout::size_of::<Value>();
    assert((n + 1) * size == n * size + size) by (nonlinear_arith);
}

/// A result counts what its rows count, one after the other.
pub proof fn rows_add_up(rows: Seq<Seq<CellModel>>, row: Seq<CellModel>)
    ensures
        rows_cost(Seq::empty()) == 0,
        rows_cost(rows.push(row)) == rows_cost(rows) + row_cost(row),
{
    assert(rows.push(row).drop_last() =~= rows);
}

/// A result is returned if and only if it has no more rows and counts no more than is
/// allowed, and all its text is UTF-8; what is wrong with the rows so far stays wrong
/// whatever follows; and a row too many or too large is told before what is in it.
pub proof fn results_are_returned_exactly_within_limits(
    limits: QueryLimits,
    rows: Seq<Seq<CellModel>>,
    next: Seq<CellModel>,
)
    ensures
        query_fault(limits, rows) is None <==> {
            &&& rows.len() <= limits.max_rows
            &&& rows_cost(rows) <= limits.max_bytes
            &&& forall|i: int, j: int|
                0 <= i < rows.len() && 0 <= j < rows[i].len() ==> is_readable(#[trigger] rows[i][j])
        },
        query_fault(limits, rows) is Some ==> query_fault(limits, rows.push(next)) == query_fault(
            limits,
            rows,
        ),
        query_fault(limits, rows) is None && (rows.len() + 1 > limits.max_rows || rows_cost(rows)
            + row_cost(next) > limits.max_bytes) ==> query_fault(limits, rows.push(next)) == Some(
            QueryFault::TooLarge,
        ),
        query_fault(limits, rows) is None && rows.len() + 1 <= limits.max_rows && rows_cost(rows)
            + row_cost(next) <= limits.max_bytes && bad_text(next) is Some ==> query_fault(
            limits,
            rows.push(next),
        ) == Some(QueryFault::BadText(bad_text(next)->Some_0)),
    decreases rows.len(),
{
    assert(rows.push(next).drop_last() =~= rows);
    if rows.len() > 0 {
        let front = rows.drop_last();
        let last = rows.last();
        results_are_returned_exactly_within_limits(limits, front, last);
        rows_keep_every_cell(last);
        assert(rows =~= front.push(last));
        if query_fault(limits, rows) is None {
            assert forall|i: int, j: int| 0 <= i < rows.len() && 0 <= j < rows[i].len() implies
                is_readable(#[trigger] rows[i][j]) by {
                if i < front.len() {
                    assert(is_readable(front[i][j]));
                } else {
                    assert(is_readable(last[j]));
                }
            }
        } else if rows.len() <= limits.max_rows && rows_cost(rows) <= limits.max_bytes {
            if query_fault(limits, front) is Some {
                let (i, j) = choose|i: int, j: int|
                    0 <= i < front.len() && 0 <= j < front[i].len() && !is_readable(
                        #[trigger] front[i][j],
                    );
                assert(!is_readable(rows[i][j]));
            } else {
                let j = choose|j: int| 0 <= j < last.len() && !is_readable(#[trigger] last[j]);
                assert(!is_readable(rows[rows.len() - 1][j]));
            }
        }
    }
}

/// A budget takes a row exactly if that makes no row too many and not too much.
pub proof fn budgets_are_spent_to_the_last(budget: QueryBudget, cells: Seq<CellModel>)
    ensures
        budget.fits(cells) <==> budget.spec_rows() + 1 <= budget.spec_limits().max_rows
            && budget.spec_limits().max_bytes - budget.spec_used() >= row_cost(cells),
{
}

/// A checkpoint says what the engine answered: whether it was busy, and the two counts, as
/// far as they fit in 32 bits. Anything but three counts that are not negative is no answer.
pub proof fn checkpoints_are_read_as_answered(
    rows: Seq<Row>,
    busy: i64,
    log: i64,
    moved: i64,
)
    requires
        rows.len() > 0,
        rows[0].spec_values().len() >= 3,
        rows[0].spec_values()[0] == Value::Integer(busy),
        rows[0].spec_values()[1] == Value::Integer(log),
        rows[0].spec_values()[2] == Value::Integer(moved),
    ensures
        checkpoint_of(rows) is Some <==> busy >= 0 && log >= 0 && moved >= 0,
        0 <= busy <= u32::MAX && 0 <= log <= u32::MAX && 0 <= moved <= u32::MAX
            ==> checkpoint_of(rows) == Some(
            Checkpoint {
                busy: busy != 0,
                log_frames: log as u32,
                checkpointed_frames: moved as u32,
            },
        ),
{
}

/// A failure ends a backup at once, at whatever stage, and five successes complete it.
pub proof fn backups_end_at_the_first_failure(outcomes: Seq<bool>)
    ensures
        outcomes == seq![true, true, true, true, true] ==> backup_after(outcomes)
            == BackupStage::Done,
        outcomes.len() <= 5 && (exists|i: int| 0 <= i < outcomes.len() && !#[trigger] outcomes[i])
            ==> backup_after(outcomes) == BackupStage::Failed,
{
    lemma_backup_history(outcomes);
    if outcomes.len() <= 5 {
        if exists|i: int| 0 <= i < outcomes.len() && !#[trigger] outcomes[i] {
            let i = choose|i: int| 0 <= i < outcomes.len() && !#[trigger] outcomes[i];
            if backup_after(outcomes) == BackupStage::Done {
                assert(outcomes.take(5)[i]);
            }
        } else {
            assert(all_succeeded(outcomes));
        }
    }
}

/// Waiting for a busy database is allowed for five seconds and no longer, and a backup gives up
/// when it has taken one.
pub proof fn waits_are_limited(
    nanos: u128,
    checked: Result<(), Error>,
    elapsed: u128,
    running: Result<(), Error>,
)
    requires
        call_ensures(check_busy_timeout, (nanos,), checked),
        call_ensures(check_deadline, (elapsed,), running),
    ensures
        checked is Ok <==> nanos <= 5 * 1_000_000_000,
        checked is Err ==> checked->Err_0 == Error::BusyTimeoutTooLarge,
        running is Ok <==> elapsed < 1_000_000_000,
        running is Err ==> running->Err_0 == Error::Busy,
{
}

/// A backup is staged beside its destination, under a hidden name that starts as the
/// destination's does.
pub proof fn backups_are_staged_beside_their_destination(
    parent: Option<String>,
    name: String,
    place: Result<(String, String), Error>,
)
    requires
        call_ensures(staging_place, (parent, Some(name)), place),
    ensures
        place is Ok,
        place->Ok_0.1@.len() > name@.len(),
        place->Ok_0.1@[0] == '.',
        place->Ok_0.1@.subrange(1, 1 + name@.len() as int) == name@,
        parent is Some && parent->Some_0@.len() > 0 ==> place->Ok_0.0@ == parent->Some_0@,
        parent is None || parent->Some_0@.len() == 0 ==> place->Ok_0.0@ == "."@,
{
    reveal_strlit(".");
    reveal_strlit(".kernal-api-backup-");
    assert(place->Ok_0.1@.subrange(1, 1 + name@.len() as int) =~= name@);
}

/// A destination that is there is never overwritten, whether it was there from the start or came
/// before the end.
pub proof fn destinations_are_never_overwritten(
    path: &str,
    exists_already: bool,
    checked: Result<(), Error>,
    linked: Result<(), HostError>,
    published: Result<(), Error>,
)
    requires
        call_ensures(check_destination, (path, exists_already), checked),
        call_ensures(publish_result, (path, linked), published),
    ensures
        checked is Ok <==> !exists_already,
        published is Ok <==> linked is Ok,
        checked is Err ==> match checked->Err_0 {
            Error::AlreadyExists(text) => text@ == path@,
            _ => false,
        },
        linked is Err && linked->Err_0.kind == HostErrorKind::AlreadyExists ==> match published {
            Err(Error::AlreadyExists(text)) => text@ == path@,
            _ => false,
        },
        linked is Err && linked->Err_0.kind != HostErrorKind::AlreadyExists ==> match published {
            Err(Error::Io(error)) => error == linked->Err_0,
            _ => false,
        },
{
}

/// A database is sound where the check answers one word, and that alone; any other text is what
/// is wrong.
pub proof fn sound_databases_answer_ok(rows: &Vec<Row>, sound: Result<(), Error>)
    requires
        call_ensures(read_integrity, (rows,), sound),
    ensures
        rows@.len() == 0 ==> sound is Err && sound->Err_0 is Sqlite,
        rows@.len() > 0 && rows@[0].spec_values().len() > 0 ==> match rows@[0].spec_values()[0] {
            Value::Text(text) => if text@ == seq!['o', 'k'] {
                sound is Ok
            } else {
                match sound {
                    Err(Error::IntegrityCheckFailed(message)) => message@ == text@,
                    _ => false,
                }
            },
            _ => sound is Err && sound->Err_0 is Sqlite,
        },
{
    reveal_strlit("ok");
    assert("ok"@ =~= seq!['o', 'k']);
}

/// A result that is returned is the one that was read: as many rows, as many values in each, and
/// every one of them as it was in the database.
pub proof fn returned_rows_are_the_rows_read(
    limits: QueryLimits,
    rows: &Vec<Vec<RawCell<'_>>>,
    collected: Result<Vec<Row>, Error>,
    row: int,
    column: int,
)
    requires
        call_ensures(collect_rows, (limits, rows), collected),
        collected is Ok,
        0 <= row < rows@.len(),
        0 <= column < rows@[row]@.len(),
    ensures
        collected->Ok_0@.len() == rows@.len(),
        rows@.len() <= limits.max_rows,
        collected->Ok_0@[row]@.len() == rows@[row]@.len(),
        match rows@[row]@[column] {
            RawCell::Null => collected->Ok_0@[row]@[column] == ValueModel::Null,
            RawCell::Integer(number) => collected->Ok_0@[row]@[column] == ValueModel::Integer(
                number,
            ),
            RawCell::Real(bits) => collected->Ok_0@[row]@[column] == ValueModel::Real(bits),
            RawCell::Text(bytes) => match collected->Ok_0@[row]@[column] {
                ValueModel::Text(text) => encode_utf8(text) == bytes@,
                _ => false,
            },
            RawCell::Blob(bytes) => collected->Ok_0@[row]@[column] == ValueModel::Blob(bytes@),
        },
{
    let models = cell_rows(rows@);
    results_are_returned_exactly_within_limits(limits, models, Seq::empty());
    let shown = row_models(collected->Ok_0@);
    assert(shown.len() == collected->Ok_0@.len());
    assert(models.len() == rows@.len());
    assert(shown == models.map_values(|cells: Seq<CellModel>| row_values(cells)));
    assert(shown.len() == models.len());
    assert(shown[row] == row_values(models[row]));
    assert(collected->Ok_0@[row]@ == shown[row]);
    assert(models[row] == cell_models(rows@[row]@));
    assert(models[row].len() == rows@[row]@.len());
    assert(row_values(models[row]).len() == models[row].len());
    let cell = rows@[row]@[column];
    assert(models[row][column] == cell@);
    assert(is_readable(models[row][column]));
    if let RawCell::Text(bytes) = cell {
        vstd::utf8::decode_utf8_encode_utf8(bytes@);
    }
}

/// One cell gives the value that it holds, or the reason why it is no text.
pub proof fn values_are_what_their_cells_hold(cell: &RawCell<'_>, value: Result<Value, Error>)
    requires
        call_ensures(value_from, (cell,), value),
    ensures
        match *cell {
            RawCell::Null => value == Ok::<Value, Error>(Value::Null),
            RawCell::Integer(number) => value == Ok::<Value, Error>(Value::Integer(number)),
            RawCell::Real(bits) => value == Ok::<Value, Error>(Value::Real(bits)),
            RawCell::Text(bytes) => value is Ok <==> valid_utf8(bytes@),
            RawCell::Blob(bytes) => match value {
                Ok(Value::Blob(held)) => held@ == bytes@,
                _ => false,
            },
        },
{
}

} // verus!
