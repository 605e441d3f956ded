//! What is particular to Linux hosts.
use vstd::prelude::*;

use crate::numbers::{le_at, le_bytes32, lemma_le_bytes32, read_u32};

verus! {

// ---------------------------------------------------------------------------
// Signals
// ---------------------------------------------------------------------------

/// A signal that is sent to processes.
#[derive(Clone, Copy, Debug, PartialEq, Eq, Structural)]
pub enum UnixSignalKind {
    Interrupt,
    Terminate,
    Kill,
}

/// The number of a signal.
pub open spec fn signal_number(signal: UnixSignalKind) -> i32 {
    match signal {
        UnixSignalKind::Interrupt => 2,
        UnixSignalKind::Terminate => 15,
        UnixSignalKind::Kill => 9,
    }
}

pub fn unix_signal_raw(signal: UnixSignalKind) -> (number: i32)
    ensures
        number == signal_number(signal),
{
    match signal {
        UnixSignalKind::Interrupt => 2,
        UnixSignalKind::Terminate => 15,
        UnixSignalKind::Kill => 9,
    }
}

/// Signals have positive numbers, and no two of them the same.
pub proof fn signals_are_told_apart(first: UnixSignalKind, second: UnixSignalKind)
    ensures
        signal_number(first) > 0,
        signal_number(first) == signal_number(second) ==> first == second,
{
}

// ---------------------------------------------------------------------------
// Observation
// ---------------------------------------------------------------------------

/// Which processes are observed.
#[derive(Clone, Copy, Debug, PartialEq, Eq, Structural)]
pub enum ObserverScope {
    SystemWide,
    LaunchedProcessTree,
}

/// What is observed of them.
#[derive(Clone, Copy, Debug, PartialEq, Eq, Structural)]
pub enum ObserverCategory {
    File,
    Network,
    Process,
}

/// How far something can be observed.
#[derive(Clone, Copy, Debug, PartialEq, Eq, Structural)]
pub enum ObserverSupport {
    Supported,
    Partial,
    Unavailable,
}

/// What observes, how well, and why no better.
#[derive(Clone, Copy, Debug)]
pub struct ObserverBackend {
    pub support: ObserverSupport,
    pub backend: &'static str,
    pub reason: &'static str,
}

pub open spec fn observer_support(
    scope: ObserverScope,
    category: ObserverCategory,
) -> ObserverSupport {
    match (scope, category) {
        (ObserverScope::SystemWide, _) => ObserverSupport::Unavailable,
        (ObserverScope::LaunchedProcessTree, ObserverCategory::File) => ObserverSupport::Partial,
        (ObserverScope::LaunchedProcessTree, ObserverCategory::Network) =>
            ObserverSupport::Unavailable,
        (ObserverScope::LaunchedProcessTree, ObserverCategory::Process) =>
            ObserverSupport::Supported,
    }
}

pub open spec fn observer_name(scope: ObserverScope, category: ObserverCategory) -> Seq<char> {
    match (scope, category) {
        (ObserverScope::SystemWide, ObserverCategory::Network) => "ebpf"@,
        (ObserverScope::SystemWide, _) => "seccomp-user-notify"@,
        (ObserverScope::LaunchedProcessTree, ObserverCategory::File) => "proc-fd-snapshot"@,
        (ObserverScope::LaunchedProcessTree, ObserverCategory::Network) => "none"@,
        (ObserverScope::LaunchedProcessTree, ObserverCategory::Process) => "subreaper-proc-poll"@,
    }
}

/// What observes a category of events in a scope. There is always a reason.
pub fn observer_backend(scope: ObserverScope, category: ObserverCategory) -> (backend:
    ObserverBackend)
    ensures
        backend.support == observer_support(scope, category),
        backend.backend@ == observer_name(scope, category),
        backend.reason@.len() > 0,
{
    let (support, backend, reason) = match (scope, category) {
        (ObserverScope::SystemWide, ObserverCategory::Network) => (
            ObserverSupport::Unavailable,
            "ebpf",
            "no network events of the whole system are read",
        ),
        (ObserverScope::SystemWide, _) => (
            ObserverSupport::Unavailable,
            "seccomp-user-notify",
            "no notifications of the whole system are read",
        ),
        (ObserverScope::LaunchedProcessTree, ObserverCategory::File) => (
            ObserverSupport::Partial,
            "proc-fd-snapshot",
            "open files are listed, but no events are streamed",
        ),
        (ObserverScope::LaunchedProcessTree, ObserverCategory::Network) => (
            ObserverSupport::Unavailable,
            "none",
            "the network of a child cannot be observed without privileges",
        ),
        (ObserverScope::LaunchedProcessTree, ObserverCategory::Process) => (
            ObserverSupport::Supported,
            "subreaper-proc-poll",
            "descendants are adopted and listed",
        ),
    };
    proof {
        reveal_strlit("no network events of the whole system are read");
        reveal_strlit("no notifications of the whole system are read");
        reveal_strlit("open files are listed, but no events are streamed");
        reveal_strlit("the network of a child cannot be observed without privileges");
        reveal_strlit("descendants are adopted and listed");
    }
    ObserverBackend { support, backend, reason }
}

// ---------------------------------------------------------------------------
// Notes
// ---------------------------------------------------------------------------

/// The size of the header of a note.
pub const NOTE_HEADER: usize = 12;

/// The type of the note that holds a build id.
pub const NT_GNU_BUILD_ID: u32 = 3;

/// A length rounded up to a multiple of four.
pub open spec fn aligned(length: nat) -> nat {
    (length + 3) / 4 * 4
}

/// Where the payload of the note at `at` begins.
pub open spec fn payload_start(notes: Seq<u8>, at: int) -> int {
    at + NOTE_HEADER + aligned(le_at(notes, at, 4))
}

/// Where the note after the one at `at` begins.
pub open spec fn next_note(notes: Seq<u8>, at: int) -> int {
    payload_start(notes, at) + aligned(le_at(notes, at + 4, 4))
}

/// Whether a whole note begins at `at`.
pub open spec fn is_note(notes: Seq<u8>, at: int) -> bool {
    0 <= at && at + NOTE_HEADER <= notes.len() && next_note(notes, at) <= notes.len()
}

/// Whether the note at `at` holds a build id.
pub open spec fn holds_build_id(notes: Seq<u8>, at: int) -> bool {
    &&& le_at(notes, at + 8, 4) == NT_GNU_BUILD_ID
    &&& le_at(notes, at, 4) >= 3
    &&& notes[at + 12] == 71u8
    &&& notes[at + 13] == 78u8
    &&& notes[at + 14] == 85u8
    &&& le_at(notes, at + 4, 4) > 0
}

/// The build id in the notes from `at` on: that of the first note that holds one,
/// unless a malformed note comes before it.
pub open spec fn build_id_from(notes: Seq<u8>, at: int) -> Option<Seq<u8>>
    decreases notes.len() - at,
{
    if !is_note(notes, at) {
        None
    } else if holds_build_id(notes, at) {
        Some(
            notes.subrange(
                payload_start(notes, at),
                payload_start(notes, at) + le_at(notes, at + 4, 4),
            ),
        )
    } else {
        build_id_from(notes, next_note(notes, at))
    }
}

fn align(length: u64) -> (total: u64)
    requires
        length <= u32::MAX,
    ensures
        total == aligned(length as nat),
        length <= total <= length + 3,
{
    (length + 3) / 4 * 4
}

/// The build id in the notes of an image.
pub fn gnu_build_id_from_notes(notes: &[u8]) -> (id: Option<Vec<u8>>)
    ensures
        match id {
            Some(id) => build_id_from(notes@, 0) == Some(id@),
            None => build_id_from(notes@, 0) is None,
        },
{
    let total: usize = notes.len();
    let mut at: usize = 0;
    while total - at >= NOTE_HEADER
        invariant
            total == notes@.len(),
            at <= total,
            build_id_from(notes@, 0) == build_id_from(notes@, at as int),
        decreases total - at,
    {
        let name_length: u64 = read_u32(notes, at) as u64;
        let length: u64 = read_u32(notes, at + 4) as u64;
        let kind: u32 = read_u32(notes, at + 8);
        let start: u64 = NOTE_HEADER as u64 + align(name_length);
        let next: u64 = start + align(length);
        if next > (total - at) as u64 {
            return None;
        }
        if kind == NT_GNU_BUILD_ID && name_length >= 3 && notes[at + 12] == 71u8
            && notes[at + 13] == 78u8 && notes[at + 14] == 85u8 && length > 0 {
            let begin: usize = at + start as usize;
            let mut id: Vec<u8> = Vec::new();
            for offset in 0..length as usize
                invariant
                    total == notes@.len(),
                    begin + length <= total,
                    id@ =~= notes@.subrange(begin as int, begin + offset),
            {
                id.push(notes[begin + offset]);
            }
            return Some(id);
        }
        at = at + next as usize;
    }
    None
}

/// A note that holds a build id, filled up to a multiple of four bytes.
pub open spec fn build_id_note(id: Seq<u8>) -> Seq<u8> {
    le_bytes32(4) + le_bytes32(id.len() as u32) + le_bytes32(NT_GNU_BUILD_ID) + seq![
        71u8,
        78u8,
        85u8,
        0u8,
    ] + id + Seq::new((aligned(id.len()) - id.len()) as nat, |i: int| 0u8)
}

/// A build id that was written down as a note is found, whatever follows it.
pub proof fn written_build_ids_are_found(id: Seq<u8>, rest: Seq<u8>)
    requires
        0 < id.len() <= u32::MAX,
    ensures
        build_id_from(build_id_note(id) + rest, 0) == Some(id),
{
    let notes = build_id_note(id) + rest;
    assert(notes.subrange(0, 4) =~= le_bytes32(4));
    assert(notes.subrange(4, 8) =~= le_bytes32(id.len() as u32));
    assert(notes.subrange(8, 12) =~= le_bytes32(NT_GNU_BUILD_ID));
    lemma_le_bytes32(4);
    lemma_le_bytes32(id.len() as u32);
    lemma_le_bytes32(NT_GNU_BUILD_ID);
    assert(notes[12] == 71u8 && notes[13] == 78u8 && notes[14] == 85u8);
    assert(payload_start(notes, 0) == 16);
    assert(notes.subrange(16, (16 + id.len()) as int) =~= id);
}

/// Other notes before it do not hide a build id.
pub proof fn other_notes_are_passed_over(notes: Seq<u8>)
    requires
        is_note(notes, 0),
        !holds_build_id(notes, 0),
    ensures
        build_id_from(notes, 0) == build_id_from(notes, next_note(notes, 0)),
{
}

/// What can be observed: nothing of the whole system, and of a launched tree its processes, its
/// files in part, and not its network.
pub proof fn only_launched_trees_are_observed(scope: ObserverScope, category: ObserverCategory)
    ensures
        observer_support(scope, category) == ObserverSupport::Supported <==> scope
            == ObserverScope::LaunchedProcessTree && category == ObserverCategory::Process,
        observer_support(scope, category) == ObserverSupport::Partial <==> scope
            == ObserverScope::LaunchedProcessTree && category == ObserverCategory::File,
        observer_name(scope, category) == "none"@ ==> observer_support(scope, category)
            == ObserverSupport::Unavailable && scope == ObserverScope::LaunchedProcessTree,
        signal_number(UnixSignalKind::Interrupt) == 2,
        signal_number(UnixSignalKind::Kill) == 9,
        signal_number(UnixSignalKind::Terminate) == 15,
{
    reveal_strlit("none");
    reveal_strlit("ebpf");
    reveal_strlit("seccomp-user-notify");
    reveal_strlit("proc-fd-snapshot");
    reveal_strlit("subreaper-proc-poll");
    assert("none"@.len() == 4);
    assert("ebpf"@[0] == 'e');
    assert("none"@[0] == 'n');
}

/// Lengths are filled up to the next multiple of four.
pub proof fn lengths_are_filled_up(length: nat)
    ensures
        length <= aligned(length) < length + 4,
        aligned(length) % 4 == 0,
{
}

/// The note that starts there is GNU's, and holds that build identifier.
pub open spec fn is_build_id_at(notes: Seq<u8>, note: int, id: Seq<u8>) -> bool {
    &&& note + 16 <= notes.len()
    &&& notes[note + 12] == 71 && notes[note + 13] == 78 && notes[note + 14] == 85
    &&& le_at(notes, note + 8, 4) == 3
    &&& le_at(notes, note + 4, 4) == id.len()
    &&& exists|from: int|
        {
            &&& note + 12 + le_at(notes, note, 4) <= from < note + 12 + le_at(notes, note, 4) + 4
            &&& (from - note) % 4 == 0
            &&& from + id.len() <= notes.len()
            &&& id == #[trigger] notes.subrange(from, from + id.len())
        }
}

/// What is found is what a note of GNU's that is there to be read holds, whole and never empty.
pub proof fn build_ids_are_found_whole(notes: Seq<u8>, at: int)
    requires
        0 <= at,
    ensures
        match build_id_from(notes, at) {
            Some(id) => {
                &&& id.len() > 0
                &&& exists|note: int| at <= note && #[trigger] is_build_id_at(notes, note, id)
            },
            None => true,
        },
    decreases notes.len() - at,
{
    if is_note(notes, at) {
        if holds_build_id(notes, at) {
            let from = payload_start(notes, at);
            let len = le_at(notes, at + 4, 4);
            let id = notes.subrange(from, from + len);
            assert(id.len() == len);
            assert(id == notes.subrange(from, from + id.len()));
            assert(le_at(notes, at, 4) <= aligned(le_at(notes, at, 4)) < le_at(notes, at, 4) + 4);
            assert((from - at) % 4 == 0);
            assert(is_build_id_at(notes, at, id));
        } else {
            build_ids_are_found_whole(notes, next_note(notes, at));
        }
    }
}

} // verus!
