//! Watching directories: what to ask the host for, and what its answers mean.
//!
//! Paths are in UTF-16, as the host hands them out.
use vstd::prelude::*;

use crate::host::{HostError, HostErrorKind};
use crate::strings::{join2, join3};
use crate::numbers::{
    le_at, le_bytes32, lemma_le_bytes32, low_bytes_come_first, read_u16, read_u32,
};
use crate::windows::path_laws::names_join_below_a_drive;
use crate::windows::paths::{
    join_units, joined_units, path_model, same_windows_path, take_apart, text_units, units_of_wide, wide_units, PathModel,
    WindowsPath,
};

verus! {

/// How much the host may report at a time.
pub const BUFFER_SIZE: u32 = 16384;

/// The changes that the host is asked to report: names of files and directories,
/// attributes, sizes, writes, creations and access lists.
pub const NOTIFY_FLAGS: u32 = 0x15f;

pub const ERROR_OPERATION_ABORTED: u32 = 995;

#[derive(Clone, Copy, Debug, PartialEq, Eq, Structural)]
pub enum EntryKind {
    File,
    Directory,
    Unknown,
}

#[derive(Clone, Copy, Debug, PartialEq, Eq, Structural)]
pub enum RenameSide {
    From,
    To,
}

/// What happened to an entry.
#[derive(Clone, Copy, Debug, PartialEq, Eq, Structural)]
pub enum ChangeKind {
    Created(EntryKind),
    Removed(EntryKind),
    ContentModified,
    NameModified(RenameSide),
}

#[derive(Clone, Copy, Debug, PartialEq, Eq, Structural)]
pub enum RecursiveMode {
    Recursive,
    NonRecursive,
}

/// A change, and where it happened.
#[derive(Clone, Debug)]
pub struct ChangeEvent {
    pub kind: ChangeKind,
    pub path: Vec<u16>,
}

/// Something was missed: everything under these paths has to be looked at again.
#[derive(Clone, Debug)]
pub struct RescanRequired {
    watch_lost: bool,
    paths: Vec<Vec<u16>>,
}

impl RescanRequired {
    pub closed spec fn spec_watch_lost(&self) -> bool {
        self.watch_lost
    }

    pub closed spec fn spec_paths(&self) -> Seq<Vec<u16>> {
        self.paths@
    }

    pub fn new(watch_lost: bool, paths: Vec<Vec<u16>>) -> (rescan: Self)
        ensures
            rescan.spec_watch_lost() == watch_lost,
            rescan.spec_paths() == paths@,
    {
        RescanRequired { watch_lost, paths }
    }

    /// Whether the watch is gone, too.
    pub fn watch_lost(&self) -> (lost: bool)
        ensures
            lost == self.spec_watch_lost(),
    {
        self.watch_lost
    }

    pub fn paths(&self) -> (paths: &Vec<Vec<u16>>)
        ensures
            paths@ == self.spec_paths(),
    {
        &self.paths
    }
}

/// What a watcher is told.
#[derive(Clone, Debug)]
pub enum WatchNotification {
    Change(ChangeEvent),
    RescanRequired(RescanRequired),
}

impl WatchNotification {
    /// Whether this asks for a rescan of one directory.
    pub open spec fn is_rescan_of(&self, dir: Seq<u16>, lost: bool) -> bool {
        match *self {
            WatchNotification::RescanRequired(rescan) => rescan.spec_watch_lost() == lost
                && rescan.spec_paths().len() == 1 && rescan.spec_paths()[0]@ == dir,
            WatchNotification::Change(_) => false,
        }
    }
}

/// Too much happened at once; the watch goes on.
pub fn overflow_notification(dir: Vec<u16>) -> (notification: WatchNotification)
    ensures
        notification.is_rescan_of(dir@, false),
{
    let mut paths: Vec<Vec<u16>> = Vec::new();
    paths.push(dir);
    WatchNotification::RescanRequired(RescanRequired::new(false, paths))
}

/// The watch could not be renewed and is gone.
pub fn watch_lost_notification(dir: Vec<u16>) -> (notification: WatchNotification)
    ensures
        notification.is_rescan_of(dir@, true),
{
    let mut paths: Vec<Vec<u16>> = Vec::new();
    paths.push(dir);
    WatchNotification::RescanRequired(RescanRequired::new(true, paths))
}

/// The meaning of an action code; one without a meaning is passed over rather
/// than guessed at.
pub open spec fn action_kind(action: u32) -> Option<ChangeKind> {
    if action == 1 {
        Some(ChangeKind::Created(EntryKind::Unknown))
    } else if action == 2 {
        Some(ChangeKind::Removed(EntryKind::Unknown))
    } else if action == 3 {
        Some(ChangeKind::ContentModified)
    } else if action == 4 {
        Some(ChangeKind::NameModified(RenameSide::From))
    } else if action == 5 {
        Some(ChangeKind::NameModified(RenameSide::To))
    } else {
        None
    }
}

pub fn classify_action(action: u32) -> (kind: Option<ChangeKind>)
    ensures
        kind == action_kind(action),
{
    match action {
        1 => Some(ChangeKind::Created(EntryKind::Unknown)),
        2 => Some(ChangeKind::Removed(EntryKind::Unknown)),
        3 => Some(ChangeKind::ContentModified),
        4 => Some(ChangeKind::NameModified(RenameSide::From)),
        5 => Some(ChangeKind::NameModified(RenameSide::To)),
        _ => None,
    }
}

pub fn is_recursive(mode: RecursiveMode) -> (recursive: bool)
    ensures
        recursive == (mode == RecursiveMode::Recursive),
{
    match mode {
        RecursiveMode::Recursive => true,
        RecursiveMode::NonRecursive => false,
    }
}

/// Whether the host watches below the directory, too: never for one file.
pub fn monitors_subdirectories(watches_file: bool, recursive: bool) -> (monitors: bool)
    ensures
        monitors == (!watches_file && recursive),
{
    !watches_file && recursive
}

// ---------------------------------------------------------------------------
// Reports
// ---------------------------------------------------------------------------

/// What a finished report means.
#[derive(Clone, Copy, Debug, PartialEq, Eq, Structural)]
pub enum Completion {
    /// The watch was cancelled: tell whoever waits for that, and ask no more.
    Released,
    /// Ask again; what happened did not fit.
    Overflow,
    /// Ask again, and read the report.
    Report,
}

pub fn completion(error_code: u32, bytes_written: u32) -> (means: Completion)
    ensures
        means == if error_code == ERROR_OPERATION_ABORTED {
            Completion::Released
        } else if bytes_written == 0 {
            Completion::Overflow
        } else {
            Completion::Report
        },
{
    if error_code == ERROR_OPERATION_ABORTED {
        Completion::Released
    } else if bytes_written == 0 {
        Completion::Overflow
    } else {
        Completion::Report
    }
}

/// One entry of a report.
pub struct EntryModel {
    pub action: u32,
    pub name: Seq<u16>,
}

/// The UTF-16 text in `count` units at `at`.
pub open spec fn units_at(report: Seq<u8>, at: int, count: nat) -> Seq<u16> {
    Seq::new(count, |i: int| le_at(report, at + 2 * i, 2) as u16)
}

/// The entries of a report from `at` on. An entry starts with the distance to
/// the next one, or zero for the last; its action; and the length of its name in
/// bytes. One that leaves the report is not read.
pub open spec fn report_entries(report: Seq<u8>, at: int) -> Seq<EntryModel>
    decreases report.len() - at,
{
    if at < 0 || at + 12 > report.len() {
        Seq::empty()
    } else {
        let next = le_at(report, at, 4) as int;
        let units = le_at(report, at + 8, 4) / 2;
        if at + 12 + 2 * units > report.len() {
            Seq::empty()
        } else {
            let entry = EntryModel {
                action: le_at(report, at + 4, 4) as u32,
                name: units_at(report, at + 12, units),
            };
            if next == 0 || at + next > report.len() {
                seq![entry]
            } else {
                seq![entry] + report_entries(report, at + next)
            }
        }
    }
}

/// A name below a directory.
pub open spec fn below(dir: Seq<u16>, name: Seq<u16>) -> Seq<u16> {
    joined_units(wide_units(dir), wide_units(name)).map_values(|unit: u32| unit as u16)
}

/// Whether an entry concerns the watch: all do, unless one file is watched.
pub open spec fn concerns(path: Seq<u16>, file: Option<Seq<u16>>) -> bool {
    match file {
        None => true,
        Some(file) => path_model(wide_units(file)) == path_model(wide_units(path)),
    }
}

/// The changes that entries amount to.
pub open spec fn changes_of(
    entries: Seq<EntryModel>,
    dir: Seq<u16>,
    file: Option<Seq<u16>>,
) -> Seq<(ChangeKind, Seq<u16>)>
    decreases entries.len(),
{
    if entries.len() == 0 {
        Seq::empty()
    } else {
        let before = changes_of(entries.drop_last(), dir, file);
        let path = below(dir, entries.last().name);
        match action_kind(entries.last().action) {
            Some(kind) if concerns(path, file) => before.push((kind, path)),
            _ => before,
        }
    }
}

pub open spec fn event_models(events: Seq<ChangeEvent>) -> Seq<(ChangeKind, Seq<u16>)> {
    events.map_values(|event: ChangeEvent| (event.kind, event.path@))
}

pub open spec fn optional_units(path: Option<Vec<u16>>) -> Option<Seq<u16>> {
    match path {
        Some(path) => Some(path@),
        None => None,
    }
}

fn read_units(report: &[u8], at: usize, count: usize) -> (units: Vec<u16>)
    requires
        at + 2 * count <= report@.len(),
    ensures
        units@ == units_at(report@, at as int, count as nat),
{
    let total = report.len();
    let mut units: Vec<u16> = Vec::new();
    for index in 0..count
        invariant
            total == report@.len(),
            at + 2 * count <= report@.len(),
            units@ == units_at(report@, at as int, index as nat),
    {
        units.push(read_u16(report, at + 2 * index));
        assert(units@ =~= units_at(report@, at as int, (index + 1) as nat));
    }
    units
}

fn join_below(dir: &Vec<u16>, name: &Vec<u16>) -> (path: Vec<u16>)
    ensures
        path@ == below(dir@, name@),
{
    let joined = join_units(&units_of_wide(dir), &units_of_wide(name));
    let mut path: Vec<u16> = Vec::new();
    for at in 0..joined.len()
        invariant
            joined@ == joined_units(wide_units(dir@), wide_units(name@)),
            path@ == below(dir@, name@).take(at as int),
    {
        path.push((joined[at] % 0x1_0000) as u16);
        proof {
            let unit = joined@[at as int];
            assert((unit % 0x1_0000) as u16 == unit as u16) by (bit_vector);
            assert(path@ =~= below(dir@, name@).take(at + 1));
        }
    }
    assert(path@ =~= below(dir@, name@));
    path
}

/// The changes in a report about `dir`, or about one `file` in it.
pub fn read_report(report: &[u8], dir: &Vec<u16>, file: &Option<Vec<u16>>) -> (events: Vec<
    ChangeEvent,
>)
    ensures
        event_models(events@) == changes_of(
            report_entries(report@, 0),
            dir@,
            optional_units(*file),
        ),
{
    let ghost watched = optional_units(*file);
    let ghost all = report_entries(report@, 0);
    let ghost mut read: Seq<EntryModel> = Seq::empty();
    let total = report.len();
    let mut events: Vec<ChangeEvent> = Vec::new();
    let mut at: usize = 0;
    let mut done = false;
    proof {
        assert(event_models(events@) =~= Seq::<(ChangeKind, Seq<u16>)>::empty());
        assert(read + report_entries(report@, 0) =~= all);
    }
    while !done
        invariant
            total == report@.len(),
            watched == optional_units(*file),
            at <= total,
            event_models(events@) == changes_of(read, dir@, watched),
            !done ==> all == read + report_entries(report@, at as int),
            done ==> all == read,
            all == report_entries(report@, 0),
        decreases total - at, if done { 0int } else { 1int },
    {
        if total - at < 12 {
            assert(read + Seq::<EntryModel>::empty() =~= read);
            done = true;
            continue ;
        }
        let next = read_u32(report, at) as usize;
        let action = read_u32(report, at + 4);
        let units = read_u32(report, at + 8) as usize / 2;
        if units > (total - at - 12) / 2 {
            assert(read + Seq::<EntryModel>::empty() =~= read);
            done = true;
            continue ;
        }
        let name = read_units(report, at + 12, units);
        let path = join_below(dir, &name);
        let wanted = match file {
            None => true,
            Some(file) => take_apart(&units_of_wide(file)).same(
                &take_apart(&units_of_wide(&path)),
            ),
        };
        let ghost entry = EntryModel { action, name: name@ };
        let ghost before = read;
        let ghost events_before = event_models(events@);
        proof {
            read = read.push(entry);
            assert(read.drop_last() =~= before);
            assert(below(dir@, entry.name) == path@);
        }
        if wanted {
            if let Some(kind) = classify_action(action) {
                let ghost target = path@;
                events.push(ChangeEvent { kind, path });
                assert(event_models(events@) =~= events_before.push((kind, target)));
            }
        }
        if next == 0 || next > total - at {
            proof {
                assert(before + seq![entry] =~= read);
            }
            done = true;
        } else {
            proof {
                let rest = report_entries(report@, at + next);
                assert(before + (seq![entry] + rest) =~= read + rest);
            }
            at = at + next;
        }
    }
    events
}

/// What to do about a finished report, and whom to tell.
#[derive(Debug)]
pub struct EventOutcome {
    /// Tell whoever waits for the end of the watch.
    pub releases: bool,
    /// Ask the host for the next report.
    pub asks_again: bool,
    pub notifications: Vec<WatchNotification>,
}

/// Whether notifications are these changes, one by one.
pub open spec fn are_changes(
    notifications: Seq<WatchNotification>,
    changes: Seq<(ChangeKind, Seq<u16>)>,
) -> bool {
    &&& notifications.len() == changes.len()
    &&& forall|i: int|
        0 <= i < changes.len() ==> match #[trigger] notifications[i] {
            WatchNotification::Change(event) => (event.kind, event.path@) == changes[i],
            WatchNotification::RescanRequired(_) => false,
        }
}

/// What a finished report leads to. A watch that was cancelled says nothing more;
/// every other goes on, also where its report did not fit.
pub fn handle_event(
    error_code: u32,
    bytes_written: u32,
    report: &[u8],
    dir: &Vec<u16>,
    file: &Option<Vec<u16>>,
) -> (outcome: EventOutcome)
    ensures
        outcome.releases == (error_code == ERROR_OPERATION_ABORTED),
        outcome.asks_again == !outcome.releases,
        if outcome.releases {
            outcome.notifications@.len() == 0
        } else if bytes_written == 0 {
            outcome.notifications@.len() == 1 && outcome.notifications@[0].is_rescan_of(dir@, false)
        } else {
            are_changes(
                outcome.notifications@,
                changes_of(report_entries(report@, 0), dir@, optional_units(*file)),
            )
        },
{
    let mut notifications: Vec<WatchNotification> = Vec::new();
    match completion(error_code, bytes_written) {
        Completion::Released => EventOutcome { releases: true, asks_again: false, notifications },
        Completion::Overflow => {
            let mut copy: Vec<u16> = Vec::new();
            copy.extend_from_slice(dir.as_slice());
            assert(copy@ =~= dir@);
            notifications.push(overflow_notification(copy));
            EventOutcome { releases: false, asks_again: true, notifications }
        },
        Completion::Report => {
            let events = read_report(report, dir, file);
            let ghost changes = event_models(events@);
            for at in 0..events.len()
                invariant
                    changes == event_models(events@),
                    notifications@.len() == at,
                    are_changes(notifications@, changes.take(at as int)),
            {
                let ghost before = notifications@;
                let mut path: Vec<u16> = Vec::new();
                path.extend_from_slice(events[at].path.as_slice());
                assert(path@ =~= events@[at as int].path@);
                notifications.push(
                    WatchNotification::Change(ChangeEvent { kind: events[at].kind, path }),
                );
                proof {
                    let longer = changes.take(at + 1);
                    assert forall|i: int|
                        0 <= i < longer.len() implies match #[trigger] notifications@[i] {
                        WatchNotification::Change(event) => (event.kind, event.path@) == longer[i],
                        WatchNotification::RescanRequired(_) => false,
                    } by {
                        if i < at {
                            assert(notifications@[i] == before[i]);
                            assert(changes.take(at as int)[i] == longer[i]);
                        }
                    }
                }
            }
            assert(changes.take(changes.len() as int) =~= changes);
            EventOutcome { releases: false, asks_again: true, notifications }
        },
    }
}

// ---------------------------------------------------------------------------
// Starting a watch
// ---------------------------------------------------------------------------

/// Where a watch is put.
#[derive(Debug)]
pub struct WatchTarget {
    /// Whether one file is watched through its directory.
    pub watches_file: bool,
    pub directory: String,
}

/// What to watch for a path: a directory itself, a file through its parent.
pub fn watch_target(path: &str, is_dir: bool, is_file: bool, parent: Option<String>) -> (target:
    Result<WatchTarget, HostError>)
    ensures
        match target {
            Ok(target) => if is_dir {
                !target.watches_file && target.directory@ == path@
            } else {
                is_file && parent is Some && target.watches_file && target.directory@
                    == parent->Some_0@
            },
            Err(error) => !is_dir && if is_file {
                parent is None && error.says(
                    HostErrorKind::InvalidInput,
                    "watch path has no parent directory: "@ + path@,
                )
            } else {
                error.says(
                    HostErrorKind::InvalidInput,
                    "watch path is neither a file nor a directory: "@ + path@,
                )
            },
        },
{
    if is_dir {
        return Ok(WatchTarget { watches_file: false, directory: path.to_owned() });
    }
    if !is_file {
        let message = join2("watch path is neither a file nor a directory: ", path);
        return Err(HostError::new(HostErrorKind::InvalidInput, message.as_str()));
    }
    match parent {
        Some(directory) => Ok(WatchTarget { watches_file: true, directory }),
        None => {
            let message = join2("watch path has no parent directory: ", path);
            Err(HostError::new(HostErrorKind::InvalidInput, message.as_str()))
        },
    }
}

/// The failure to open the directory of a watch.
pub fn open_failure(path: &str, watches_file: bool) -> (error: HostError)
    ensures
        if watches_file {
            error.says(
                HostErrorKind::Other,
                "watching a single file requires opening its parent directory, which failed: "@
                    + path@,
            )
        } else {
            error.says(
                HostErrorKind::NotFound,
                "could not open directory to watch: "@ + path@,
            )
        },
{
    if watches_file {
        let message = join2(
            "watching a single file requires opening its parent directory, which failed: ",
            path,
        );
        HostError::new(HostErrorKind::Other, message.as_str())
    } else {
        let message = join2("could not open directory to watch: ", path);
        HostError::new(HostErrorKind::NotFound, message.as_str())
    }
}

/// The failure to make what the end of a watch is told by.
pub open spec fn is_semaphore_failure(error: HostError, path: Seq<char>) -> bool {
    error.says(
        HostErrorKind::Other,
        "failed to create completion semaphore for watch: "@ + path,
    )
}

/// What adding a watch comes to. `opened` tells whether the directory could be
/// opened, and `signalled` whether there is something to tell the end of the watch
/// by.
pub fn add_watch(
    path: &str,
    is_dir: bool,
    is_file: bool,
    parent: Option<String>,
    opened: bool,
    signalled: bool,
) -> (added: Result<WatchTarget, HostError>)
    ensures
        match added {
            Ok(target) => opened && signalled && if is_dir {
                !target.watches_file && target.directory@ == path@
            } else {
                is_file && parent is Some && target.watches_file && target.directory@
                    == parent->Some_0@
            },
            Err(error) => if !is_dir && !is_file {
                error.says(
                    HostErrorKind::InvalidInput,
                    "watch path is neither a file nor a directory: "@ + path@,
                )
            } else if !is_dir && parent is None {
                error.says(
                    HostErrorKind::InvalidInput,
                    "watch path has no parent directory: "@ + path@,
                )
            } else if !opened {
                if is_dir {
                    error.says(
                        HostErrorKind::NotFound,
                        "could not open directory to watch: "@ + path@,
                    )
                } else {
                    error.says(
                        HostErrorKind::Other,
                        "watching a single file requires opening its parent directory, which failed: "@
                            + path@,
                    )
                }
            } else {
                !signalled && is_semaphore_failure(error, path@)
            },
        },
{
    let target = match watch_target(path, is_dir, is_file, parent) {
        Ok(target) => target,
        Err(error) => {
            return Err(error);
        },
    };
    if !opened {
        return Err(open_failure(path, target.watches_file));
    }
    if !signalled {
        let message = join2("failed to create completion semaphore for watch: ", path);
        return Err(HostError::new(HostErrorKind::Other, message.as_str()));
    }
    Ok(target)
}

/// The watches under way: for each path the token of its handles. Two spellings of
/// one path are one path.
#[derive(Debug)]
pub struct WatchTable {
    entries: Vec<(WindowsPath, u64)>,
}

/// What a list of entries says: the last entry of a path counts.
pub open spec fn watch_map(entries: Seq<(WindowsPath, u64)>) -> Map<PathModel, u64>
    decreases entries.len(),
{
    if entries.len() == 0 {
        Map::empty()
    } else {
        watch_map(entries.drop_last()).insert(entries.last().0@, entries.last().1)
    }
}

impl WatchTable {
    pub closed spec fn wf(&self) -> bool {
        forall|i: int, j: int|
            0 <= i < j < self.entries@.len() ==> self.entries@[i].0@ != self.entries@[j].0@
    }

    pub closed spec fn view(&self) -> Map<PathModel, u64> {
        watch_map(self.entries@)
    }

    pub fn new() -> (table: Self)
        ensures
            table.wf(),
            table.view() == Map::<PathModel, u64>::empty(),
    {
        WatchTable { entries: Vec::new() }
    }

    fn find(&self, path: &WindowsPath) -> (place: Option<usize>)
        requires
            self.wf(),
        ensures
            match place {
                Some(place) => place < self.entries@.len() && self.entries@[place as int].0@
                    == path@,
                None => forall|i: int|
                    0 <= i < self.entries@.len() ==> (#[trigger] self.entries@[i]).0@ != path@,
            },
    {
        for at in 0..self.entries.len()
            invariant
                forall|i: int| 0 <= i < at ==> (#[trigger] self.entries@[i]).0@ != path@,
        {
            if self.entries[at].0.same(path) {
                return Some(at);
            }
        }
        None
    }

    /// Notes a watch. One of the same path is forgotten.
    pub fn insert(&mut self, path: &Vec<u16>, token: u64)
        requires
            old(self).wf(),
        ensures
            final(self).wf(),
            final(self).view() == old(self).view().insert(path_model(wide_units(path@)), token),
    {
        let ghost before = self.entries@;
        self.remove(path);
        let path = take_apart(&units_of_wide(path));
        let ghost left = self.entries@;
        self.entries.push((path, token));
        proof {
            assert(self.entries@.drop_last() =~= left);
            lemma_absent(left, path@);
            assert forall|i: int, j: int| 0 <= i < j < self.entries@.len() implies self.entries@[i].0@
                != self.entries@[j].0@ by {
                assert(self.entries@[i] == left[i]);
                if j < left.len() {
                    assert(self.entries@[j] == left[j]);
                }
            }
            assert(self.view() =~= watch_map(before).insert(path@, token));
        }
    }

    /// Forgets a watch; its handles are to be given back.
    pub fn remove(&mut self, path: &Vec<u16>) -> (token: Option<u64>)
        requires
            old(self).wf(),
        ensures
            final(self).wf(),
            final(self).view() == old(self).view().remove(path_model(wide_units(path@))),
            match token {
                Some(token) => old(self).view().contains_key(path_model(wide_units(path@)))
                    && old(self).view()[path_model(wide_units(path@))] == token,
                None => !old(self).view().contains_key(path_model(wide_units(path@))),
            },
    {
        let ghost before = self.entries@;
        let path = take_apart(&units_of_wide(path));
        match self.find(&path) {
            Some(place) => {
                let (_, token) = self.entries.remove(place);
                proof {
                    lemma_removed(before, place as int);
                    let after = self.entries@;
                    assert forall|i: int, j: int| 0 <= i < j < after.len() implies after[i].0@
                        != after[j].0@ by {
                        let a = if i < place { i } else { i + 1 };
                        let b = if j < place { j } else { j + 1 };
                        assert(after[i] == before[a] && after[j] == before[b]);
                    }
                }
                Some(token)
            },
            None => {
                proof {
                    lemma_absent(before, path@);
                    assert(watch_map(before).remove(path@) =~= watch_map(before));
                }
                None
            },
        }
    }

    /// Every token, once for each watch, for the end of all of them.
    pub fn tokens(&self) -> (tokens: Vec<u64>)
        requires
            self.wf(),
        ensures
            lists_every_watch(self.view(), tokens@),
            tokens@.len() == self.view().dom().len(),
            forall|token: u64| #[trigger]
                tokens@.contains(token) <==> self.view().contains_value(token),
    {
        let mut tokens: Vec<u64> = Vec::new();
        for at in 0..self.entries.len()
            invariant
                tokens@.len() == at,
                forall|i: int| 0 <= i < at ==> tokens@[i] == (#[trigger] self.entries@[i]).1,
        {
            tokens.push(self.entries[at].1);
        }
        proof {
            let paths = self.entries@.map_values(|entry: (WindowsPath, u64)| entry.0@);
            assert forall|i: int| 0 <= i < paths.len() implies self.view().contains_key(
                #[trigger] paths[i],
            ) && self.view()[paths[i]] == tokens@[i] by {
                lemma_listed(self.entries@, i);
                assert(self.entries@[i].1 == tokens@[i]);
            }
            assert(paths.to_set() =~= self.view().dom()) by {
                assert forall|path: PathModel| #[trigger] self.view().dom().contains(
                    path,
                ) implies paths.contains(path) by {
                    let i = lemma_found(self.entries@, path);
                    assert(paths[i] == path);
                }
            }
            paths.unique_seq_to_set();
            assert(is_listing(self.view(), tokens@, paths));
            assert forall|token: u64| #[trigger] tokens@.contains(token)
                <==> self.view().contains_value(token) by {
                if tokens@.contains(token) {
                    let i = choose|i: int| 0 <= i < tokens@.len() && tokens@[i] == token;
                    assert(self.entries@[i].1 == token);
                    lemma_listed(self.entries@, i);
                    assert(self.view()[self.entries@[i].0@] == token);
                }
                if self.view().contains_value(token) {
                    let path = choose|path: PathModel| #[trigger]
                        self.view().contains_key(path) && self.view()[path] == token;
                    let i = lemma_found(self.entries@, path);
                    assert(tokens@[i] == token);
                }
            }
        }
        tokens
    }
}

/// Whether tokens are those of watches at the given paths, which are all there are.
pub open spec fn is_listing(
    watches: Map<PathModel, u64>,
    tokens: Seq<u64>,
    paths: Seq<PathModel>,
) -> bool {
    &&& paths.len() == tokens.len()
    &&& paths.no_duplicates()
    &&& paths.to_set() == watches.dom()
    &&& forall|i: int| 0 <= i < paths.len() ==> watches[#[trigger] paths[i]] == tokens[i]
}

/// Whether tokens are those of all watches, one for each.
pub open spec fn lists_every_watch(watches: Map<PathModel, u64>, tokens: Seq<u64>) -> bool {
    exists|paths: Seq<PathModel>| is_listing(watches, tokens, paths)
}

spec fn names_differ(entries: Seq<(WindowsPath, u64)>) -> bool {
    forall|i: int, j: int| 0 <= i < j < entries.len() ==> entries[i].0@ != entries[j].0@
}

proof fn lemma_absent(entries: Seq<(WindowsPath, u64)>, path: PathModel)
    ensures
        (forall|i: int| 0 <= i < entries.len() ==> (#[trigger] entries[i]).0@ != path)
            <==> !watch_map(entries).contains_key(path),
    decreases entries.len(),
{
    if entries.len() > 0 {
        let before = entries.drop_last();
        lemma_absent(before, path);
        if forall|i: int| 0 <= i < entries.len() ==> (#[trigger] entries[i]).0@ != path {
            assert forall|i: int| 0 <= i < before.len() implies (#[trigger] before[i]).0@
                != path by {
                assert(before[i] == entries[i]);
            }
            assert(entries.last() == entries[entries.len() - 1]);
        } else {
            let i = choose|i: int| 0 <= i < entries.len() && (#[trigger] entries[i]).0@ == path;
            if i < before.len() {
                assert(before[i] == entries[i]);
            }
        }
    }
}

proof fn lemma_listed(entries: Seq<(WindowsPath, u64)>, place: int)
    requires
        names_differ(entries),
        0 <= place < entries.len(),
    ensures
        watch_map(entries).contains_key(entries[place].0@),
        watch_map(entries)[entries[place].0@] == entries[place].1,
    decreases entries.len(),
{
    let before = entries.drop_last();
    if place < before.len() {
        assert forall|i: int, j: int| 0 <= i < j < before.len() implies before[i].0@
            != before[j].0@ by {
            assert(before[i] == entries[i] && before[j] == entries[j]);
        }
        lemma_listed(before, place);
        assert(before[place] == entries[place]);
    }
}

proof fn lemma_found(entries: Seq<(WindowsPath, u64)>, path: PathModel) -> (place: int)
    requires
        watch_map(entries).contains_key(path),
    ensures
        0 <= place < entries.len(),
        entries[place].0@ == path,
        entries[place].1 == watch_map(entries)[path],
    decreases entries.len(),
{
    if entries.last().0@ == path {
        entries.len() - 1
    } else {
        lemma_found(entries.drop_last(), path)
    }
}

proof fn lemma_removed(entries: Seq<(WindowsPath, u64)>, place: int)
    requires
        names_differ(entries),
        0 <= place < entries.len(),
    ensures
        watch_map(entries.remove(place)) == watch_map(entries).remove(entries[place].0@),
        watch_map(entries).contains_key(entries[place].0@),
        watch_map(entries)[entries[place].0@] == entries[place].1,
    decreases entries.len(),
{
    lemma_listed(entries, place);
    let before = entries.drop_last();
    let path = entries[place].0@;
    if place == entries.len() - 1 {
        assert(entries.remove(place) =~= before);
        assert forall|i: int| 0 <= i < before.len() implies (#[trigger] before[i]).0@ != path by {
            assert(before[i] == entries[i]);
        }
        lemma_absent(before, path);
        assert(watch_map(before) =~= watch_map(entries).remove(path));
    } else {
        assert forall|i: int, j: int| 0 <= i < j < before.len() implies before[i].0@
            != before[j].0@ by {
            assert(before[i] == entries[i] && before[j] == entries[j]);
        }
        lemma_removed(before, place);
        assert(entries.remove(place).drop_last() =~= before.remove(place));
        assert(entries.remove(place).last() == entries.last());
        assert(entries.last().0@ != path);
        assert(watch_map(entries.remove(place)) =~= watch_map(entries).remove(path));
    }
}

/// Whether the end of a watch is waited for: only where the host took the request
/// to cancel it, and closed the directory.
pub fn waits_for_end(cancelled: bool, closed: bool) -> (waits: bool)
    ensures
        waits == (cancelled && closed),
{
    cancelled && closed
}

/// The failure to reach whoever looks after the watches.
pub fn backend_disconnected() -> (error: HostError)
    ensures
        error.says(HostErrorKind::Other, "fs-watch backend disconnected"@),
{
    HostError::new(HostErrorKind::Other, "fs-watch backend disconnected")
}

/// Whether the watch that was acknowledged is the one that was asked for.
pub fn check_acknowledgement(asked: &str, acknowledged: &str) -> (checked: Result<(), HostError>)
    ensures
        match checked {
            Ok(()) => path_model(text_units(asked@)) == path_model(text_units(acknowledged@)),
            Err(error) => path_model(text_units(asked@)) != path_model(text_units(acknowledged@))
                && error.says(
                HostErrorKind::Other,
                "expected acknowledgement for "@ + asked@ + " but got "@ + acknowledged@,
            ),
        },
{
    if same_windows_path(asked, acknowledged) {
        return Ok(());
    }
    let front = join3("expected acknowledgement for ", asked, " but got ");
    let message = join2(front.as_str(), acknowledged);
    Err(HostError::new(HostErrorKind::Other, message.as_str()))
}

// ---------------------------------------------------------------------------
// What is told of reports
// ---------------------------------------------------------------------------

/// Whether an entry is to be told: its action is a known one, and it is about what is
/// watched.
pub open spec fn is_told(entry: EntryModel, dir: Seq<u16>, file: Option<Seq<u16>>) -> bool {
    &&& 1 <= entry.action <= 5
    &&& match file {
        Some(file) => path_model(wide_units(below(dir, entry.name))) == path_model(
            wide_units(file),
        ),
        None => true,
    }
}

/// No report is dropped and none is made up: every entry with a known action, about the one
/// watched file if there is one, gives exactly one change, in order, of the kind of its action
/// and at its name below the directory.
pub proof fn every_entry_is_told(entries: Seq<EntryModel>, dir: Seq<u16>, file: Option<Seq<u16>>)
    ensures
        ({
            let told = entries.filter(|entry: EntryModel| is_told(entry, dir, file));
            let changes = changes_of(entries, dir, file);
            &&& changes.len() == told.len()
            &&& forall|i: int|
                0 <= i < told.len() ==> {
                    &&& (#[trigger] changes[i]).1 == below(dir, told[i].name)
                    &&& told[i].action == 1 ==> changes[i].0 == ChangeKind::Created(
                        EntryKind::Unknown,
                    )
                    &&& told[i].action == 2 ==> changes[i].0 == ChangeKind::Removed(
                        EntryKind::Unknown,
                    )
                    &&& told[i].action == 3 ==> changes[i].0 == ChangeKind::ContentModified
                    &&& told[i].action == 4 ==> changes[i].0 == ChangeKind::NameModified(
                        RenameSide::From,
                    )
                    &&& told[i].action == 5 ==> changes[i].0 == ChangeKind::NameModified(
                        RenameSide::To,
                    )
                }
        }),
    decreases entries.len(),
{
    let wanted = |entry: EntryModel| is_told(entry, dir, file);
    reveal(Seq::filter);
    if entries.len() > 0 {
        let front = entries.drop_last();
        every_entry_is_told(front, dir, file);
        let before = changes_of(front, dir, file);
        let told_before = front.filter(wanted);
        let changes = changes_of(entries, dir, file);
        let told = entries.filter(wanted);
        if wanted(entries.last()) {
            assert(told == told_before.push(entries.last()));
            assert forall|i: int| 0 <= i < told_before.len() implies #[trigger] changes[i]
                == before[i] && told[i] == told_before[i] by {}
        }
    }
}

/// Where no single file is watched, what is told of some entries and then of others is what
/// is told of all of them.
pub proof fn reports_add_up(first: Seq<EntryModel>, second: Seq<EntryModel>, dir: Seq<u16>)
    ensures
        changes_of(first + second, dir, None) == changes_of(first, dir, None) + changes_of(
            second,
            dir,
            None,
        ),
    decreases second.len(),
{
    if second.len() == 0 {
        assert(first + second =~= first);
        assert(changes_of(first, dir, None) + changes_of(second, dir, None) =~= changes_of(
            first,
            dir,
            None,
        ));
    } else {
        assert((first + second).drop_last() =~= first + second.drop_last());
        reports_add_up(first, second.drop_last(), dir);
        assert(changes_of(first + second, dir, None) =~= changes_of(first, dir, None) + changes_of(
            second,
            dir,
            None,
        ));
    }
}

/// Every action has its own meaning.
pub proof fn actions_are_told_apart(first: u32, second: u32)
    ensures
        action_kind(first) is Some <==> 1 <= first <= 5,
        action_kind(first) is Some && action_kind(first) == action_kind(second) ==> first == second,
{
}

/// A name in bytes, each unit low byte first.
pub open spec fn name_bytes(name: Seq<u16>) -> Seq<u8> {
    Seq::new(
        2 * name.len(),
        |i: int| if i % 2 == 0 { (name[i / 2] % 256) as u8 } else { (name[i / 2] / 256) as u8 },
    )
}

/// How many bytes are left free after a name, so that what follows starts at a multiple of
/// four.
pub open spec fn gap_after(name: Seq<u16>) -> nat {
    if name.len() % 2 == 0 { 0 } else { 2 }
}

/// A report as the host writes it.
pub open spec fn written_report(entries: Seq<EntryModel>) -> Seq<u8>
    decreases entries.len(),
{
    if entries.len() == 0 {
        Seq::empty()
    } else {
        let name = entries[0].name;
        let size = 12 + 2 * name.len() + gap_after(name);
        let next = if entries.len() == 1 { 0 } else { size };
        let head = le_bytes32(next as u32) + le_bytes32(entries[0].action) + le_bytes32(
            (2 * name.len()) as u32,
        ) + name_bytes(name);
        if entries.len() == 1 {
            head
        } else {
            head + Seq::new(gap_after(name), |i: int| 0u8) + written_report(entries.drop_first())
        }
    }
}

/// Entries that a host wrote are read back, in order and with nothing lost.
pub proof fn written_reports_are_read_back(entries: Seq<EntryModel>)
    requires
        written_report(entries).len() <= u32::MAX,
    ensures
        report_entries(written_report(entries), 0) == entries,
{
    lemma_report_read_back(Seq::empty(), entries);
    assert(Seq::<u8>::empty() + written_report(entries) =~= written_report(entries));
}

proof fn lemma_pieces_of_entry(
    before: Seq<u8>,
    next: Seq<u8>,
    action: Seq<u8>,
    length: Seq<u8>,
    name: Seq<u8>,
    tail: Seq<u8>,
)
    requires
        next.len() == 4,
        action.len() == 4,
        length.len() == 4,
    ensures
        ({
            let report = before + (next + action + length + name + tail);
            let at = before.len() as int;
            &&& report.len() == at + 12 + name.len() + tail.len()
            &&& report.subrange(at, at + 4) == next
            &&& report.subrange(at + 4, at + 8) == action
            &&& report.subrange(at + 8, at + 12) == length
            &&& report.subrange(at + 12, at + 12 + name.len()) == name
        }),
{
    let report = before + (next + action + length + name + tail);
    let at = before.len() as int;
    assert(report.subrange(at, at + 4) =~= next);
    assert(report.subrange(at + 4, at + 8) =~= action);
    assert(report.subrange(at + 8, at + 12) =~= length);
    assert(report.subrange(at + 12, at + 12 + name.len()) =~= name);
}

proof fn lemma_units_read_back(report: Seq<u8>, at: int, name: Seq<u16>)
    requires
        0 <= at,
        at + 2 * name.len() <= report.len(),
        report.subrange(at, at + 2 * name.len()) == name_bytes(name),
    ensures
        units_at(report, at, name.len()) == name,
{
    let units = units_at(report, at, name.len());
    let bytes = name_bytes(name);
    assert forall|i: int| 0 <= i < name.len() implies #[trigger] units[i] == name[i] by {
        low_bytes_come_first(report, at + 2 * i);
        assert(report[at + 2 * i] == bytes[2 * i]);
        assert(report[at + 2 * i + 1] == bytes[2 * i + 1]);
        assert((2 * i) / 2 == i && (2 * i + 1) / 2 == i);
        let u = name[i];
        assert((u % 256) as int + 256 * ((u / 256) as int) == u as int);
    }
    assert(units =~= name);
}

proof fn lemma_report_read_back(before: Seq<u8>, entries: Seq<EntryModel>)
    requires
        written_report(entries).len() <= u32::MAX,
    ensures
        report_entries(before + written_report(entries), before.len() as int) == entries,
    decreases entries.len(),
{
    let own = written_report(entries);
    let report = before + own;
    let at = before.len() as int;
    if entries.len() == 0 {
        assert(entries =~= Seq::<EntryModel>::empty());
    } else {
        let entry = entries[0];
        let name = entry.name;
        let size = 12 + 2 * name.len() + gap_after(name);
        let next = if entries.len() == 1 { 0 } else { size };
        let gap = Seq::new(gap_after(name), |i: int| 0u8);
        let rest = written_report(entries.drop_first());
        let tail = if entries.len() == 1 { Seq::empty() } else { gap + rest };
        let length = (2 * name.len()) as u32;
        assert(own =~= le_bytes32(next as u32) + le_bytes32(entry.action) + le_bytes32(length)
            + name_bytes(name) + tail);
        lemma_pieces_of_entry(
            before,
            le_bytes32(next as u32),
            le_bytes32(entry.action),
            le_bytes32(length),
            name_bytes(name),
            tail,
        );
        lemma_le_bytes32(next as u32);
        lemma_le_bytes32(entry.action);
        lemma_le_bytes32(length);
        lemma_units_read_back(report, at + 12, name);
        if entries.len() > 1 {
            let longer = before + own.take(size as int);
            assert(own.skip(size as int) =~= rest);
            assert(longer + rest =~= report);
            lemma_report_read_back(longer, entries.drop_first());
            assert(seq![entry] + entries.drop_first() =~= entries);
        } else {
            assert(seq![entry] =~= entries);
        }
    }
}

/// An entry's name lies below the watched directory, behind one separator.
pub proof fn entries_lie_below_their_directory(dir: Seq<u16>, name: Seq<u16>)
    requires
        dir.len() >= 3,
        65 <= dir[0] <= 90 || 97 <= dir[0] <= 122,
        dir[1] == 58,
        dir[2] == 92 || dir[2] == 47,
        dir.last() != 92,
        dir.last() != 47,
        name.len() > 0,
        name[0] != 92,
        name[0] != 47,
        name.len() == 1 || name[1] != 58,
    ensures
        below(dir, name) == dir + seq![92u16] + name,
{
    names_join_below_a_drive(wide_units(dir), wide_units(name));
    assert(below(dir, name) =~= dir + seq![92u16] + name);
}

/// A completion is the end of a watch, too much to tell, or a report, in that order.
pub proof fn completions_mean_one_thing(error_code: u32, bytes_written: u32, means: Completion)
    requires
        call_ensures(completion, (error_code, bytes_written), means),
    ensures
        means == Completion::Released <==> error_code == 995,
        means == Completion::Report <==> error_code != 995 && bytes_written > 0,
{
}

/// An event either ends its watch and tells nothing, or asks for the next; one without a report
/// asks for one look at the directory, and one with a report tells each change of it.
pub proof fn events_are_answered(
    error_code: u32,
    bytes_written: u32,
    report: &[u8],
    dir: &Vec<u16>,
    file: &Option<Vec<u16>>,
    outcome: EventOutcome,
)
    requires
        call_ensures(handle_event, (error_code, bytes_written, report, dir, file), outcome),
    ensures
        outcome.releases != outcome.asks_again,
        outcome.releases <==> error_code == 995,
        outcome.releases ==> outcome.notifications@.len() == 0,
        !outcome.releases && bytes_written == 0 ==> outcome.notifications@.len() == 1
            && outcome.notifications@[0] is RescanRequired,
        !outcome.releases && bytes_written > 0 ==> outcome.notifications@.len() == changes_of(
            report_entries(report@, 0),
            dir@,
            optional_units(*file),
        ).len(),
        !outcome.releases && bytes_written > 0 ==> forall|i: int|
            0 <= i < outcome.notifications@.len() ==> #[trigger] outcome.notifications@[i] is Change,
{
}

} // verus!
