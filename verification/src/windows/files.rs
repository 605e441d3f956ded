//! Facts about files: identity, change markers, allocation, sharing of extents.
use vstd::prelude::*;

use crate::host::{HostError, HostErrorKind};
use crate::numbers::{
    le_at, le_bytes32, lemma_le_bytes32, low_bytes_come_first, read_i64, read_u16, read_u32, signed64,
};
use crate::strings::{
    chars_of, join2, lowered, only_capital_letters_are_lowered, same_ignoring_case, text_from_utf8,
};

verus! {

// ---------------------------------------------------------------------------
// Paths for the host
// ---------------------------------------------------------------------------

fn has_zero(units: &Vec<u16>) -> (has: bool)
    ensures
        has == units@.contains(0),
{
    for at in 0..units.len()
        invariant
            forall|i: int| 0 <= i < at ==> units@[i] != 0,
    {
        if units[at] == 0 {
            assert(units@[at as int] == 0);
            return true;
        }
    }
    false
}

/// A path closed by a zero, which the host takes for its end; one that holds a
/// zero would be cut short, and is refused.
pub fn wide(path: Vec<u16>) -> (closed: Result<Vec<u16>, HostError>)
    ensures
        match closed {
            Ok(closed) => !path@.contains(0) && closed@ == path@.push(0),
            Err(error) => path@.contains(0) && error.says(
                HostErrorKind::InvalidInput,
                "path contains NUL"@,
            ),
        },
{
    if has_zero(&path) {
        return Err(HostError::new(HostErrorKind::InvalidInput, "path contains NUL"));
    }
    let mut closed = path;
    closed.push(0);
    Ok(closed)
}

/// [`wide`] where the reason of a refusal does not matter.
pub fn wide_path(path: Vec<u16>) -> (closed: Option<Vec<u16>>)
    ensures
        match closed {
            Some(closed) => !path@.contains(0) && closed@ == path@.push(0),
            None => path@.contains(0),
        },
{
    match wide(path) {
        Ok(closed) => Some(closed),
        Err(_) => None,
    }
}

/// A path out of raw bytes: only UTF-8 can be one.
pub fn path_from_raw_bytes(bytes: Vec<u8>) -> (path: Option<String>)
    ensures
        match path {
            Some(path) => vstd::utf8::valid_utf8(bytes@) && path@ == vstd::utf8::decode_utf8(
                bytes@,
            ),
            None => !vstd::utf8::valid_utf8(bytes@),
        },
{
    match text_from_utf8(bytes) {
        Ok(path) => Some(path),
        Err(_) => None,
    }
}

/// The directory and the name that a path for the host is put together from:
/// the directory is resolved, the name is taken as it is.
pub fn native_call_parts(path: &str, name: Option<String>, parent: Option<String>) -> (parts: Result<
    (String, String),
    HostError,
>)
    ensures
        match (name, parts) {
            (None, Err(error)) => error.says(
                HostErrorKind::InvalidInput,
                "path has no filename: "@ + path@,
            ),
            (Some(name), Ok((directory, file))) => file@ == name@ && directory@ == match parent {
                Some(parent) => if parent@.len() == 0 { "."@ } else { parent@ },
                None => "."@,
            },
            _ => false,
        },
{
    let name = match name {
        Some(name) => name,
        None => {
            let message = join2("path has no filename: ", path);
            return Err(HostError::new(HostErrorKind::InvalidInput, message.as_str()));
        },
    };
    let directory = match parent {
        Some(parent) => if chars_of(parent.as_str()).len() == 0 {
            ".".to_owned()
        } else {
            parent
        },
        None => ".".to_owned(),
    };
    Ok((directory, name))
}

// ---------------------------------------------------------------------------
// Identity
// ---------------------------------------------------------------------------

/// What tells one file from another: the volume, and the file on it.
#[derive(Clone, Copy, Debug, PartialEq, Eq, Hash)]
pub struct PathFileIdentity {
    pub volume_serial: u64,
    pub identifier: [u8; 16],
}

impl PathFileIdentity {
    pub open spec fn is_same(&self, other: &PathFileIdentity) -> bool {
        self.volume_serial == other.volume_serial && self.identifier@ == other.identifier@
    }

    /// Whether both name one file. Every bit counts.
    pub fn same(&self, other: &PathFileIdentity) -> (same: bool)
        ensures
            same == self.is_same(other),
    {
        if self.volume_serial != other.volume_serial {
            return false;
        }
        for at in 0..16usize
            invariant
                forall|i: int| 0 <= i < at ==> self.identifier@[i] == other.identifier@[i],
        {
            if self.identifier[at] != other.identifier[at] {
                assert(self.identifier@[at as int] != other.identifier@[at as int]);
                return false;
            }
        }
        assert(self.identifier@ =~= other.identifier@);
        true
    }
}

/// The identity that a current volume reports.
pub fn native_identity(volume_serial: u64, identifier: [u8; 16]) -> (identity: PathFileIdentity)
    ensures
        identity.volume_serial == volume_serial,
        identity.identifier@ == identifier@,
{
    PathFileIdentity { volume_serial, identifier }
}

/// The identifier that two words make: they come first, and nothing is above.
pub open spec fn legacy_identifier(low: u32, high: u32) -> Seq<u8> {
    le_bytes32(low) + le_bytes32(high) + seq![0u8, 0u8, 0u8, 0u8, 0u8, 0u8, 0u8, 0u8]
}

/// The identity that an older volume reports: two words, and nothing above.
pub fn legacy_identity(volume_serial: u32, index_low: u32, index_high: u32) -> (identity:
    PathFileIdentity)
    ensures
        identity.volume_serial == volume_serial,
        identity.identifier@ == legacy_identifier(index_low, index_high),
{
    let identifier: [u8; 16] = [
        (index_low % 256) as u8,
        (index_low / 256 % 256) as u8,
        (index_low / 65536 % 256) as u8,
        (index_low / 16777216) as u8,
        (index_high % 256) as u8,
        (index_high / 256 % 256) as u8,
        (index_high / 65536 % 256) as u8,
        (index_high / 16777216) as u8,
        0,
        0,
        0,
        0,
        0,
        0,
        0,
        0,
    ];
    assert(identifier@ =~= legacy_identifier(index_low, index_high));
    PathFileIdentity { volume_serial: volume_serial as u64, identifier }
}

/// Files that an older volume tells apart are told apart.
pub proof fn both_words_count(low: u32, high: u32, other_low: u32, other_high: u32)
    requires
        legacy_identifier(low, high) == legacy_identifier(other_low, other_high),
    ensures
        low == other_low,
        high == other_high,
{
    let first = legacy_identifier(low, high);
    let second = legacy_identifier(other_low, other_high);
    assert(first.subrange(0, 4) =~= le_bytes32(low));
    assert(first.subrange(4, 8) =~= le_bytes32(high));
    assert(second.subrange(0, 4) =~= le_bytes32(other_low));
    assert(second.subrange(4, 8) =~= le_bytes32(other_high));
    lemma_le_bytes32(low);
    lemma_le_bytes32(high);
    lemma_le_bytes32(other_low);
    lemma_le_bytes32(other_high);
}

/// The identity of a path, where the host could observe one.
pub fn path_file_identity(path: &str, observed: Option<PathFileIdentity>) -> (identity: Result<
    PathFileIdentity,
    HostError,
>)
    ensures
        match (observed, identity) {
            (Some(observed), Ok(identity)) => identity == observed,
            (None, Err(error)) => error.says(
                HostErrorKind::NotFound,
                "cannot obtain file identity for "@ + path@,
            ),
            _ => false,
        },
{
    match observed {
        Some(identity) => Ok(identity),
        None => {
            let message = join2("cannot obtain file identity for ", path);
            Err(HostError::new(HostErrorKind::NotFound, message.as_str()))
        },
    }
}

/// Whether two paths lead to one file: only if both could be observed.
pub fn same_file(first: Option<PathFileIdentity>, second: Option<PathFileIdentity>) -> (same: bool)
    ensures
        same == match (first, second) {
            (Some(first), Some(second)) => first.is_same(&second),
            _ => false,
        },
{
    match (first, second) {
        (Some(first), Some(second)) => first.same(&second),
        _ => false,
    }
}

/// Refuses a directory that was exchanged between opening and removing it.
pub fn require_same_directory(
    original: &PathFileIdentity,
    candidate: &PathFileIdentity,
) -> (checked: Result<(), HostError>)
    ensures
        match checked {
            Ok(()) => original.is_same(candidate),
            Err(error) => !original.is_same(candidate) && error.says(
                HostErrorKind::Other,
                "scratch directory changed while acquiring cleanup handle"@,
            ),
        },
{
    if original.same(candidate) {
        Ok(())
    } else {
        Err(
            HostError::new(
                HostErrorKind::Other,
                "scratch directory changed while acquiring cleanup handle",
            ),
        )
    }
}

/// Refuses to anchor at anything but a plain directory.
pub fn require_plain_directory(is_dir: bool, attributes: u32) -> (checked: Result<(), HostError>)
    ensures
        match checked {
            Ok(()) => is_dir && attributes & 0x400 == 0,
            Err(error) => !(is_dir && attributes & 0x400 == 0) && error.says(
                HostErrorKind::Other,
                "scratch anchor is not a plain directory"@,
            ),
        },
{
    if !is_dir || attributes & 0x400 != 0 {
        return Err(HostError::new(HostErrorKind::Other, "scratch anchor is not a plain directory"));
    }
    Ok(())
}

/// The path that the host wrote into a buffer of `capacity` units, where it
/// fits.
pub fn bounded_path_length(length: u32, capacity: usize) -> (fits: Result<usize, HostError>)
    requires
        length > 0,
    ensures
        match fits {
            Ok(units) => units == length && length < capacity,
            Err(error) => length >= capacity && error.says(
                HostErrorKind::Other,
                "scratch directory path exceeds Win32 limit"@,
            ),
        },
{
    if length as usize >= capacity {
        return Err(
            HostError::new(HostErrorKind::Other, "scratch directory path exceeds Win32 limit"),
        );
    }
    Ok(length as usize)
}

// ---------------------------------------------------------------------------
// Change markers
// ---------------------------------------------------------------------------

/// The change number of a journal record. Two layouts carry one; each must be
/// there in full.
pub open spec fn usn_of(record: Seq<u8>) -> Option<int> {
    if record.len() < 8 {
        None
    } else if le_at(record, 4, 2) == 2 && record.len() >= 64 {
        Some(signed64(le_at(record, 24, 8)))
    } else if le_at(record, 4, 2) == 3 && record.len() >= 80 {
        Some(signed64(le_at(record, 40, 8)))
    } else {
        None
    }
}

pub fn decode_usn(record: &[u8]) -> (usn: Option<i64>)
    ensures
        match usn {
            Some(usn) => usn_of(record@) == Some(usn as int),
            None => usn_of(record@) is None,
        },
{
    if record.len() < 8 {
        return None;
    }
    let major = read_u16(record, 4);
    if major == 2 && record.len() >= 64 {
        Some(read_i64(record, 24))
    } else if major == 3 && record.len() >= 80 {
        Some(read_i64(record, 40))
    } else {
        None
    }
}

/// The change number of a file, in the part of a buffer that the host filled;
/// none where the host did not answer.
pub fn file_change_marker(answered: bool, buffer: &[u8], returned: u32) -> (marker: Option<i128>)
    ensures
        match marker {
            Some(marker) => answered && returned <= buffer@.len() && usn_of(
                buffer@.take(returned as int),
            ) == Some(marker as int),
            None => !answered || returned > buffer@.len() || usn_of(
                buffer@.take(returned as int),
            ) is None,
        },
{
    if !answered || returned as usize > buffer.len() {
        return None;
    }
    let filled = vstd::slice::slice_subrange(buffer, 0, returned as usize);
    assert(filled@ =~= buffer@.take(returned as int));
    match decode_usn(filled) {
        Some(usn) => Some(usn as i128),
        None => None,
    }
}

// ---------------------------------------------------------------------------
// Kinds, modes and sizes
// ---------------------------------------------------------------------------

/// What stands behind a name.
#[derive(Clone, Copy, Debug, PartialEq, Eq, Structural)]
pub enum LinkKind {
    Regular,
    Symlink,
    Reparse,
}

/// The kind of a name, by its attributes and its reparse tag, where that could
/// be read.
pub fn classify_link(attributes: u32, tag: Option<u32>) -> (kind: LinkKind)
    ensures
        kind == if attributes & 0x400 == 0 {
            LinkKind::Regular
        } else if tag == Some(0xa000_000cu32) {
            LinkKind::Symlink
        } else {
            LinkKind::Reparse
        },
{
    if attributes & 0x400 == 0 {
        return LinkKind::Regular;
    }
    match tag {
        Some(tag) => if tag == 0xa000_000c {
            LinkKind::Symlink
        } else {
            LinkKind::Reparse
        },
        None => LinkKind::Reparse,
    }
}

/// The reparse tag at the front of a reply, where it is long enough.
pub fn reparse_tag(reply: &[u8], returned: u32) -> (tag: Option<u32>)
    ensures
        match tag {
            Some(tag) => 4 <= returned && 4 <= reply@.len() && tag == le_at(reply@, 0, 4),
            None => returned < 4 || reply@.len() < 4,
        },
{
    if returned >= 4 && reply.len() >= 4 {
        Some(read_u32(reply, 0))
    } else {
        None
    }
}

/// The mode that stands for a file's permissions: only whether it is read-only
/// is known.
pub open spec fn mode_of(readonly: bool) -> u32 {
    if readonly { 1 } else { 0 }
}

/// Whether a mode stands for a read-only file.
pub open spec fn mode_is_readonly(mode: u32) -> bool {
    mode != 0
}

pub fn metadata_mode(readonly: bool) -> (mode: u32)
    ensures
        mode == mode_of(readonly),
{
    if readonly {
        1
    } else {
        0
    }
}

/// Whether the file is to be read-only under a mode.
pub fn apply_metadata_mode(mode: u32) -> (readonly: bool)
    ensures
        readonly == mode_is_readonly(mode),
{
    mode != 0
}

/// What was recorded of a file's permissions is what is put back.
pub proof fn modes_round_trip(readonly: bool)
    ensures
        mode_is_readonly(mode_of(readonly)) == readonly,
{
}

/// Whether the host has to be asked to change a file's permissions.
pub fn set_readonly(current: bool, wanted: bool) -> (changes: bool)
    ensures
        changes == (current != wanted),
{
    current != wanted
}

/// Every file can be executed here; there is nothing to change.
pub fn make_executable() -> (done: Result<(), HostError>)
    ensures
        done is Ok,
{
    Ok(())
}

/// Directories need no flushing here.
pub fn sync_directory_if_supported() -> (done: Result<(), HostError>)
    ensures
        done is Ok,
{
    Ok(())
}

/// How many bits a file identifier has.
pub fn file_id_width() -> (bits: u32)
    ensures
        bits == 128,
{
    128
}

/// How many bytes a file occupies: two words, unless the low one is the mark of
/// a failure and an error came with it.
pub fn allocated_size_result(low: u32, high: u32, error: u32, fallback: u64) -> (size: u64)
    ensures
        size == if low == u32::MAX && error != 0 {
            fallback as int
        } else {
            high * 0x1_0000_0000 + low
        },
{
    if low == u32::MAX && error != 0 {
        fallback
    } else {
        high as u64 * 0x1_0000_0000 + low as u64
    }
}

/// How many names a file has, by the order in which the host's failures count: to
/// open it, to ask it, and to close it again.
pub fn hard_link_count(
    links: u32,
    open: Option<HostError>,
    query: Option<HostError>,
    close: Option<HostError>,
) -> (count: Result<u64, HostError>)
    ensures
        match (open, query, close, count) {
            (Some(error), _, _, Err(reported)) => reported == error,
            (None, Some(error), _, Err(reported)) => reported == error,
            (None, None, Some(error), Err(reported)) => reported == error,
            (None, None, None, Ok(count)) => count == links,
            _ => false,
        },
{
    match (open, query, close) {
        (Some(error), _, _) => Err(error),
        (None, Some(error), _) => Err(error),
        (None, None, Some(error)) => Err(error),
        (None, None, None) => Ok(links as u64),
    }
}

/// The volume that a path is on, where the host could observe it.
pub fn volume_identity_u128(observed: Option<PathFileIdentity>) -> (volume: Option<u128>)
    ensures
        match (observed, volume) {
            (Some(identity), Some(volume)) => volume == identity.volume_serial,
            (None, None) => true,
            _ => false,
        },
{
    match observed {
        Some(identity) => Some(identity.volume_serial as u128),
        None => None,
    }
}

/// Whether writers of a file could be waited for.
#[derive(Clone, Copy, Debug, PartialEq, Eq, Structural)]
pub enum WriterWait {
    Unobservable,
}

/// Writers cannot be observed here.
pub fn await_no_writers() -> (wait: WriterWait)
    ensures
        wait == WriterWait::Unobservable,
{
    WriterWait::Unobservable
}

// ---------------------------------------------------------------------------
// Shared extents
// ---------------------------------------------------------------------------

/// Whether a file shares storage with another.
#[derive(Clone, Copy, Debug, PartialEq, Eq, Structural)]
pub enum ExtentSharing {
    Exclusive,
    Shared,
    Unknown,
}

/// One run of storage.
#[derive(Clone, Copy, Debug, PartialEq, Eq, Structural)]
pub struct Extent {
    pub next_vcn: i64,
    pub lcn: i64,
    pub reference_count: u32,
}

/// Where the extents of a reply start.
pub const EXTENTS_OFFSET: usize = 16;

/// How many bytes an extent takes.
pub const EXTENT_SIZE: usize = 24;

/// How many extents are asked for at a time.
pub const EXTENTS_PER_CALL: usize = 256;

/// Whether an extent holds data that something else holds too. A hole has no
/// place on the volume.
pub open spec fn is_shared(extent: Extent) -> bool {
    extent.lcn != -1 && extent.reference_count > 1
}

pub fn classify(extents: &[Extent]) -> (sharing: Option<ExtentSharing>)
    ensures
        match sharing {
            Some(sharing) => sharing == ExtentSharing::Shared && exists|i: int|
                0 <= i < extents@.len() && is_shared(#[trigger] extents@[i]),
            None => forall|i: int|
                0 <= i < extents@.len() ==> !is_shared(#[trigger] extents@[i]),
        },
{
    for at in 0..extents.len()
        invariant
            forall|i: int| 0 <= i < at ==> !is_shared(#[trigger] extents@[i]),
    {
        if extents[at].lcn != -1 && extents[at].reference_count > 1 {
            assert(is_shared(extents@[at as int]));
            return Some(ExtentSharing::Shared);
        }
    }
    None
}

/// The extent at a place in a reply.
pub open spec fn extent_in(reply: Seq<u8>, index: int) -> Extent {
    let at = EXTENTS_OFFSET + EXTENT_SIZE * index;
    Extent {
        next_vcn: signed64(le_at(reply, at, 8)) as i64,
        lcn: signed64(le_at(reply, at + 8, 8)) as i64,
        reference_count: le_at(reply, at + 16, 4) as u32,
    }
}

/// How many extents of a reply can be read.
pub open spec fn extents_in(reply: Seq<u8>) -> nat {
    let claimed = le_at(reply, 0, 4);
    if claimed < EXTENTS_PER_CALL { claimed } else { EXTENTS_PER_CALL as nat }
}

/// Reads the extents of a reply.
pub fn read_extents(reply: &[u8]) -> (extents: Vec<Extent>)
    requires
        reply@.len() >= EXTENTS_OFFSET + EXTENT_SIZE * EXTENTS_PER_CALL,
    ensures
        extents@ == Seq::new(extents_in(reply@), |i: int| extent_in(reply@, i)),
{
    let claimed = read_u32(reply, 0) as usize;
    let count: usize = if claimed < EXTENTS_PER_CALL { claimed } else { EXTENTS_PER_CALL };
    let mut extents: Vec<Extent> = Vec::new();
    for index in 0..count
        invariant
            count <= EXTENTS_PER_CALL,
            reply@.len() >= EXTENTS_OFFSET + EXTENT_SIZE * EXTENTS_PER_CALL,
            extents@ == Seq::new(index as nat, |i: int| extent_in(reply@, i)),
    {
        let at: usize = EXTENTS_OFFSET + EXTENT_SIZE * index;
        extents.push(
            Extent {
                next_vcn: read_i64(reply, at),
                lcn: read_i64(reply, at + 8),
                reference_count: read_u32(reply, at + 16),
            },
        );
        assert(extents@ =~= Seq::new((index + 1) as nat, |i: int| extent_in(reply@, i)));
    }
    extents
}

/// What to do after one reply.
#[derive(Clone, Copy, Debug, PartialEq, Eq, Structural)]
pub enum ExtentStep {
    Report { sharing: ExtentSharing },
    AskFrom { vcn: i64 },
    Fail,
}

/// What a reply leads to. `error` is the host's code where the call failed: the
/// end of the file means that there are no extents at all, and more data means
/// that the reply is good but not the last.
pub open spec fn extent_step_of(
    starting_vcn: i64,
    error: Option<i32>,
    extents: Seq<Extent>,
) -> ExtentStep {
    if error == Some(38i32) {
        ExtentStep::Report { sharing: ExtentSharing::Exclusive }
    } else if error is Some && error != Some(234i32) {
        ExtentStep::Fail
    } else if exists|i: int| 0 <= i < extents.len() && is_shared(#[trigger] extents[i]) {
        ExtentStep::Report { sharing: ExtentSharing::Shared }
    } else if error is Some && extents.len() > 0 && extents.last().next_vcn > starting_vcn {
        ExtentStep::AskFrom { vcn: extents.last().next_vcn }
    } else {
        ExtentStep::Report { sharing: ExtentSharing::Exclusive }
    }
}

pub fn extent_step(starting_vcn: i64, error: Option<i32>, extents: &[Extent]) -> (step: ExtentStep)
    ensures
        step == extent_step_of(starting_vcn, error, extents@),
{
    let more = match error {
        Some(code) => {
            if code == 38 {
                return ExtentStep::Report { sharing: ExtentSharing::Exclusive };
            }
            if code != 234 {
                return ExtentStep::Fail;
            }
            true
        },
        None => false,
    };
    if let Some(sharing) = classify(extents) {
        return ExtentStep::Report { sharing };
    }
    if more && extents.len() > 0 && extents[extents.len() - 1].next_vcn > starting_vcn {
        return ExtentStep::AskFrom { vcn: extents[extents.len() - 1].next_vcn };
    }
    ExtentStep::Report { sharing: ExtentSharing::Exclusive }
}

/// Every further question starts later in the file, so the questions end.
pub proof fn extent_questions_advance(starting_vcn: i64, error: Option<i32>, extents: Seq<Extent>)
    ensures
        match extent_step_of(starting_vcn, error, extents) {
            ExtentStep::AskFrom { vcn } => vcn > starting_vcn,
            _ => true,
        },
{
}

/// What the name of a file system says about sharing.
#[derive(Clone, Copy, Debug, PartialEq, Eq, Structural)]
pub enum VolumeVerdict {
    /// No file on it shares storage.
    Exclusive,
    /// Nothing is known of it.
    Unknown,
    /// The file has to be asked about.
    Ask,
}

/// A file system by name: the older ones cannot share storage, one can.
pub open spec fn verdict_of(name: Seq<char>) -> VolumeVerdict {
    if lowered(name) == lowered("NTFS"@) || lowered(name) == lowered("FAT"@) || lowered(name)
        == lowered("FAT32"@) || lowered(name) == lowered("exFAT"@) {
        VolumeVerdict::Exclusive
    } else if lowered(name) == lowered("ReFS"@) {
        VolumeVerdict::Ask
    } else {
        VolumeVerdict::Unknown
    }
}

pub fn volume_verdict(name: &str) -> (verdict: VolumeVerdict)
    ensures
        verdict == verdict_of(name@),
{
    if same_ignoring_case(name, "NTFS") || same_ignoring_case(name, "FAT") || same_ignoring_case(
        name,
        "FAT32",
    ) || same_ignoring_case(name, "exFAT") {
        VolumeVerdict::Exclusive
    } else if same_ignoring_case(name, "ReFS") {
        VolumeVerdict::Ask
    } else {
        VolumeVerdict::Unknown
    }
}

/// Whether a failure only says that the question is not supported.
pub open spec fn means_unsupported(code: Option<i32>) -> bool {
    code == Some(1i32) || code == Some(50i32) || code == Some(87i32)
}

pub fn is_unsupported(code: Option<i32>) -> (is: bool)
    ensures
        is == means_unsupported(code),
{
    match code {
        Some(code) => code == 1 || code == 50 || code == 87,
        None => false,
    }
}

/// What asking a file came to.
pub fn settle_sharing(asked: Result<ExtentSharing, HostError>) -> (sharing: Result<
    ExtentSharing,
    HostError,
>)
    ensures
        match (asked, sharing) {
            (Ok(asked), Ok(sharing)) => sharing == asked,
            (Err(error), Ok(sharing)) => sharing == ExtentSharing::Unknown && means_unsupported(
                error.code,
            ),
            (Err(error), Err(reported)) => reported == error && !means_unsupported(error.code),
            _ => false,
        },
{
    match asked {
        Ok(sharing) => Ok(sharing),
        Err(error) => if is_unsupported(error.code) {
            Ok(ExtentSharing::Unknown)
        } else {
            Err(error)
        },
    }
}

/// Whether a file shares storage, by the file system it is on, and by the answer of
/// the file itself where that can tell.
pub fn extent_sharing(file_system: &str, asked: Result<ExtentSharing, HostError>) -> (sharing:
    Result<ExtentSharing, HostError>)
    ensures
        match verdict_of(file_system@) {
            VolumeVerdict::Exclusive => sharing == Ok::<ExtentSharing, HostError>(
                ExtentSharing::Exclusive,
            ),
            VolumeVerdict::Unknown => sharing == Ok::<ExtentSharing, HostError>(
                ExtentSharing::Unknown,
            ),
            VolumeVerdict::Ask => match (asked, sharing) {
                (Ok(asked), Ok(sharing)) => sharing == asked,
                (Err(error), Ok(sharing)) => sharing == ExtentSharing::Unknown
                    && means_unsupported(error.code),
                (Err(error), Err(reported)) => reported == error && !means_unsupported(error.code),
                _ => false,
            },
        },
{
    match volume_verdict(file_system) {
        VolumeVerdict::Exclusive => Ok(ExtentSharing::Exclusive),
        VolumeVerdict::Unknown => Ok(ExtentSharing::Unknown),
        VolumeVerdict::Ask => settle_sharing(asked),
    }
}

/// The older identifier is the two words and zeros, sixteen bytes in all.
pub proof fn older_identifiers_are_filled_with_zeros(low: u32, high: u32)
    ensures
        legacy_identifier(low, high).len() == 16,
        le_at(legacy_identifier(low, high), 0, 4) == low,
        le_at(legacy_identifier(low, high), 4, 4) == high,
        forall|i: int| 8 <= i < 16 ==> #[trigger] legacy_identifier(low, high)[i] == 0,
{
    lemma_le_bytes32(low);
    lemma_le_bytes32(high);
    let id = legacy_identifier(low, high);
    assert(id.subrange(0, 4) =~= le_bytes32(low));
    assert(id.subrange(4, 8) =~= le_bytes32(high));
}

/// A record's number is read where its version puts it: behind twenty-four bytes in the second,
/// behind forty in the third.
pub proof fn record_numbers_are_read_back(
    version: u16,
    head: Seq<u8>,
    low: u32,
    high: u32,
    tail: Seq<u8>,
)
    requires
        head.len() >= 8,
        head[4] + 256 * head[5] == version,
    ensures
        ({
            let record = head + le_bytes32(low) + le_bytes32(high) + tail;
            let number = low + 0x1_0000_0000 * high;
            let usn = if high < 0x8000_0000 { number } else { number - 0x1_0000_0000_0000_0000 };
            &&& version == 2 && head.len() == 24 && record.len() >= 64 ==> usn_of(record) == Some(
                usn,
            )
            &&& version == 3 && head.len() == 40 && record.len() >= 80 ==> usn_of(record) == Some(
                usn,
            )
            &&& version == 2 && record.len() < 64 ==> usn_of(record) is None
            &&& version == 3 && record.len() < 80 ==> usn_of(record) is None
            &&& version != 2 && version != 3 ==> usn_of(record) is None
        }),
{
    let record = head + le_bytes32(low) + le_bytes32(high) + tail;
    let n = head.len() as int;
    lemma_le_bytes32(low);
    lemma_le_bytes32(high);
    assert(record[4] == head[4] && record[5] == head[5]);
    low_bytes_come_first(record, 4);
    low_bytes_come_first(record, n);
    assert(record.subrange(n, n + 4) =~= le_bytes32(low));
    assert(record.subrange(n + 4, n + 8) =~= le_bytes32(high));
}

proof fn lemma_five_words(
    front: Seq<u8>,
    a: Seq<u8>,
    b: Seq<u8>,
    c: Seq<u8>,
    d: Seq<u8>,
    e: Seq<u8>,
    back: Seq<u8>,
)
    requires
        a.len() == 4,
        b.len() == 4,
        c.len() == 4,
        d.len() == 4,
        e.len() == 4,
    ensures
        ({
            let all = front + a + b + c + d + e + back;
            let at = front.len() as int;
            &&& all.len() >= at + 20
            &&& all.subrange(at, at + 4) == a
            &&& all.subrange(at + 4, at + 8) == b
            &&& all.subrange(at + 8, at + 12) == c
            &&& all.subrange(at + 12, at + 16) == d
            &&& all.subrange(at + 16, at + 20) == e
        }),
{
    let all = front + a + b + c + d + e + back;
    let at = front.len() as int;
    assert(all.subrange(at, at + 4) =~= a);
    assert(all.subrange(at + 4, at + 8) =~= b);
    assert(all.subrange(at + 8, at + 12) =~= c);
    assert(all.subrange(at + 12, at + 16) =~= d);
    assert(all.subrange(at + 16, at + 20) =~= e);
}

/// An extent is read back as it was written, at its place behind the sixteen bytes of the head.
pub proof fn written_extents_are_read_back(
    front: Seq<u8>,
    index: int,
    next: (u32, u32),
    cluster: (u32, u32),
    count: u32,
    back: Seq<u8>,
)
    requires
        0 <= index,
        front.len() == 16 + 24 * index,
    ensures
        ({
            let reply = front + le_bytes32(next.0) + le_bytes32(next.1) + le_bytes32(cluster.0)
                + le_bytes32(cluster.1) + le_bytes32(count) + back;
            let extent = extent_in(reply, index);
            &&& extent.next_vcn == signed64((next.0 + 0x1_0000_0000 * next.1) as nat)
            &&& extent.lcn == signed64((cluster.0 + 0x1_0000_0000 * cluster.1) as nat)
            &&& extent.reference_count == count
        }),
{
    let reply = front + le_bytes32(next.0) + le_bytes32(next.1) + le_bytes32(cluster.0)
        + le_bytes32(cluster.1) + le_bytes32(count) + back;
    let at = 16 + 24 * index;
    lemma_le_bytes32(next.0);
    lemma_le_bytes32(next.1);
    lemma_le_bytes32(cluster.0);
    lemma_le_bytes32(cluster.1);
    lemma_le_bytes32(count);
    lemma_five_words(
        front,
        le_bytes32(next.0),
        le_bytes32(next.1),
        le_bytes32(cluster.0),
        le_bytes32(cluster.1),
        le_bytes32(count),
        back,
    );
    low_bytes_come_first(reply, at);
    low_bytes_come_first(reply, at + 8);
}

/// A file is shared where any extent that lies on the disk is counted more than once, and
/// exclusive only where the last question left nothing to ask.
pub proof fn one_shared_extent_is_enough(
    starting_vcn: i64,
    error: Option<i32>,
    extents: Seq<Extent>,
    at: int,
)
    requires
        0 <= at < extents.len(),
    ensures
        extents[at].lcn != -1 && extents[at].reference_count >= 2 && (error is None || error
            == Some(234i32)) ==> extent_step_of(starting_vcn, error, extents) == (
        ExtentStep::Report { sharing: ExtentSharing::Shared }),
        (forall|i: int|
            0 <= i < extents.len() ==> (#[trigger] extents[i]).lcn == -1
                || extents[i].reference_count <= 1) ==> {
            &&& extent_step_of(starting_vcn, error, extents) != (ExtentStep::Report {
                sharing: ExtentSharing::Shared,
            })
            &&& error is None ==> extent_step_of(starting_vcn, error, extents) == (
            ExtentStep::Report { sharing: ExtentSharing::Exclusive })
            &&& error == Some(234i32) && extents.last().next_vcn > starting_vcn ==> extent_step_of(
                starting_vcn,
                error,
                extents,
            ) == (ExtentStep::AskFrom { vcn: extents.last().next_vcn })
        },
        error == Some(38i32) ==> extent_step_of(starting_vcn, error, extents) == (
        ExtentStep::Report { sharing: ExtentSharing::Exclusive }),
        error is Some && error != Some(38i32) && error != Some(234i32) <==> extent_step_of(
            starting_vcn,
            error,
            extents,
        ) == ExtentStep::Fail,
{
    if extents[at].lcn != -1 && extents[at].reference_count >= 2 {
        assert(is_shared(extents[at]));
    }
}

/// A volume's name counts in whatever case it is written.
pub proof fn volumes_are_known_in_any_case(name: Seq<char>)
    ensures
        verdict_of(lowered(name)) == verdict_of(name),
        verdict_of(name) == VolumeVerdict::Exclusive <==> lowered(name) == "ntfs"@ || lowered(name)
            == "fat"@ || lowered(name) == "fat32"@ || lowered(name) == "exfat"@,
        verdict_of(name) == VolumeVerdict::Ask <==> lowered(name) == "refs"@,
{
    only_capital_letters_are_lowered(name);
    reveal_strlit("NTFS");
    reveal_strlit("FAT");
    reveal_strlit("FAT32");
    reveal_strlit("exFAT");
    reveal_strlit("ReFS");
    reveal_strlit("ntfs");
    reveal_strlit("fat");
    reveal_strlit("fat32");
    reveal_strlit("exfat");
    reveal_strlit("refs");
    assert(lowered("NTFS"@) =~= "ntfs"@);
    assert(lowered("FAT"@) =~= "fat"@);
    assert(lowered("FAT32"@) =~= "fat32"@);
    assert(lowered("exFAT"@) =~= "exfat"@);
    assert(lowered("ReFS"@) =~= "refs"@);
    assert("refs"@[0] == 'r' && "ntfs"@[0] == 'n' && "fat"@.len() == 3 && "fat32"@.len() == 5
        && "exfat"@.len() == 5 && "refs"@.len() == 4);
}

/// A file is a link only where its attributes mark it as something else's place, and a symbolic
/// one only under that tag.
pub proof fn links_are_marked(attributes: u32, tag: Option<u32>, kind: LinkKind)
    requires
        call_ensures(classify_link, (attributes, tag), kind),
    ensures
        kind == LinkKind::Regular <==> (attributes / 0x400) % 2 == 0,
        kind == LinkKind::Symlink <==> (attributes / 0x400) % 2 == 1 && tag == Some(0xa000_000cu32),
{
    assert((attributes & 0x400u32 == 0) <==> (attributes / 0x400u32) % 2 == 0) by (bit_vector);
}

/// A size is its two words, high and low; the fallback counts only where the low word is the
/// mark of a failure and there was one.
pub proof fn sizes_are_two_words(low: u32, high: u32, error: u32, fallback: u64, size: u64)
    requires
        call_ensures(allocated_size_result, (low, high, error, fallback), size),
    ensures
        error == 0 || low < u32::MAX ==> size / 0x1_0000_0000 == high && size % 0x1_0000_0000 == low,
        error != 0 && low == u32::MAX ==> size == fallback,
{
}

/// A file is the same as another both ways round, as itself where it can be looked at, and never
/// as one on another volume.
pub proof fn sameness_goes_both_ways(
    first: Option<PathFileIdentity>,
    second: Option<PathFileIdentity>,
    there: bool,
    back: bool,
    own: bool,
)
    requires
        call_ensures(same_file, (first, second), there),
        call_ensures(same_file, (second, first), back),
        call_ensures(same_file, (first, first), own),
    ensures
        there == back,
        own <==> first is Some,
        there ==> first is Some && second is Some && first->Some_0.volume_serial
            == second->Some_0.volume_serial && first->Some_0.identifier@
            == second->Some_0.identifier@,
        first is Some && second is Some && first->Some_0.volume_serial
            == second->Some_0.volume_serial && first->Some_0.identifier@
            == second->Some_0.identifier@ ==> there,
{
}

/// A volume that cannot answer leaves sharing unknown; any other failure is told.
pub proof fn only_missing_answers_are_passed_over(
    error: HostError,
    sharing: Result<ExtentSharing, HostError>,
)
    requires
        call_ensures(settle_sharing, (Err(error),), sharing),
    ensures
        sharing is Ok <==> error.code == Some(1i32) || error.code == Some(50i32) || error.code
            == Some(87i32),
        sharing is Ok ==> sharing->Ok_0 == ExtentSharing::Unknown,
        sharing is Err ==> sharing->Err_0 == error,
{
}

/// A path is closed by one zero, and only one that holds none before it.
pub proof fn closed_paths_end_in_their_only_zero(
    path: Vec<u16>,
    closed: Result<Vec<u16>, HostError>,
    also: Option<Vec<u16>>,
)
    requires
        call_ensures(wide, (path,), closed),
        call_ensures(wide_path, (path,), also),
    ensures
        closed is Ok == also is Some,
        closed is Ok ==> closed->Ok_0@ == also->Some_0@,
        closed is Ok ==> closed->Ok_0@.len() == path@.len() + 1 && closed->Ok_0@.last() == 0
            && closed->Ok_0@.drop_last() == path@,
        closed is Ok ==> forall|i: int| 0 <= i < path@.len() ==> #[trigger] closed->Ok_0@[i] != 0,
        closed is Err ==> path@.contains(0),
{
    if closed is Ok {
        assert(closed->Ok_0@.drop_last() =~= path@);
        assert forall|i: int| 0 <= i < path@.len() implies #[trigger] closed->Ok_0@[i] != 0 by {
            assert(path@.contains(path@[i]));
        }
    }
}

/// No more extents are read than there is room for, and no more than there are.
pub proof fn extents_are_read_up_to_the_room(reply: Seq<u8>)
    ensures
        extents_in(reply) <= 256,
        extents_in(reply) <= le_at(reply, 0, 4),
        extents_in(reply) == 256 || extents_in(reply) == le_at(reply, 0, 4),
{
}

} // verus!
