//! The identity that a PDB carries.
//!
//! A PDB is a container of streams that are cut into blocks. Its directory lists, by
//! words of 32 bits, how many streams there are, how long each is, and then the
//! blocks of each in turn. The second stream says what the PDB is called, the fourth
//! which writing of it an image names.
use vstd::prelude::*;

use crate::numbers::{le_at, low_bytes_come_first, read_u32};

use super::image::{identity_text, spell_identity, PdbInfo};

verus! {

/// How much of a PDB comes before its blocks are known.
pub const HEADER_BYTES: usize = 56;

/// The length of a stream that is not there.
pub const NO_STREAM: u32 = 0xffff_ffff;

/// `Microsoft C/C++ MSF 7.00`, a line end, and `DS` among what stops a listing.
pub open spec fn container_magic() -> Seq<u8> {
    seq![
        0x4du8, 0x69u8, 0x63u8, 0x72u8, 0x6fu8, 0x73u8, 0x6fu8, 0x66u8, 0x74u8, 0x20u8, 0x43u8,
        0x2fu8, 0x43u8, 0x2bu8, 0x2bu8, 0x20u8, 0x4du8, 0x53u8, 0x46u8, 0x20u8, 0x37u8, 0x2eu8,
        0x30u8, 0x30u8, 0x0du8, 0x0au8, 0x1au8, 0x44u8, 0x53u8, 0x00u8, 0x00u8, 0x00u8,
    ]
}

pub open spec fn block_size(bytes: Seq<u8>) -> nat {
    le_at(bytes, 32, 4)
}

/// Whether bytes start as a PDB does, with blocks that hold whole words and the head
/// of a stream.
pub open spec fn is_container(bytes: Seq<u8>) -> bool {
    &&& bytes.len() >= HEADER_BYTES
    &&& bytes.take(32) == container_magic()
    &&& block_size(bytes) >= 512
    &&& block_size(bytes) % 4 == 0
}

pub open spec fn word_at(bytes: Seq<u8>, at: nat) -> Option<nat> {
    if at + 4 <= bytes.len() { Some(le_at(bytes, at as int, 4)) } else { None }
}

/// A word of the directory, whose own blocks are listed in the block that the header
/// names.
pub open spec fn directory_word(bytes: Seq<u8>, index: nat) -> Option<nat> {
    let size = block_size(bytes);
    if 4 * index + 4 > le_at(bytes, 44, 4) {
        None
    } else {
        match word_at(bytes, le_at(bytes, 52, 4) * size + 4 * ((4 * index) / size)) {
            Some(block) => word_at(bytes, block * size + (4 * index) % size),
            None => None,
        }
    }
}

/// How many blocks a stream of that length has.
pub open spec fn blocks_for(length: nat, size: nat) -> nat {
    if length == NO_STREAM { 0 } else { (length + size - 1) as nat / size }
}

/// How many blocks come before those of a stream.
pub open spec fn blocks_before(bytes: Seq<u8>, stream: nat) -> Option<nat>
    decreases stream,
{
    if stream == 0 {
        Some(0)
    } else {
        match (
            blocks_before(bytes, (stream - 1) as nat),
            directory_word(bytes, stream),
        ) {
            (Some(before), Some(length)) => Some(before + blocks_for(length, block_size(bytes))),
            _ => None,
        }
    }
}

/// Where a stream starts, if it is there and has that many bytes in the file.
pub open spec fn stream_start(bytes: Seq<u8>, stream: nat, least: nat) -> Option<nat> {
    match (
        directory_word(bytes, 0),
        directory_word(bytes, stream + 1),
        blocks_before(bytes, stream),
    ) {
        (Some(streams), Some(length), Some(before)) => if stream < streams && length >= least
            && length != NO_STREAM {
            match directory_word(bytes, 1 + streams + before) {
                Some(block) => if block * block_size(bytes) + least <= bytes.len() {
                    Some(block * block_size(bytes))
                } else {
                    None
                },
                None => None,
            }
        } else {
            None
        },
        _ => None,
    }
}

/// The identifier and the age of a PDB. The age is that of its debug information,
/// which is what an image records; other tools may count the PDB's own age up.
pub open spec fn pdb_signature(bytes: Seq<u8>) -> Option<(Seq<u8>, u32)> {
    if !is_container(bytes) {
        None
    } else {
        match stream_start(bytes, 1, 28) {
            Some(info) => {
                let guid = bytes.subrange(info as int + 12, info as int + 28);
                match stream_start(bytes, 3, 12) {
                    Some(debug) if le_at(bytes, debug as int, 4) == NO_STREAM => Some(
                        (guid, le_at(bytes, debug as int + 8, 4) as u32),
                    ),
                    _ => Some((guid, le_at(bytes, info as int + 8, 4) as u32)),
                }
            },
            None => None,
        }
    }
}

/// The identity of a PDB, spelled as an image's is.
pub open spec fn pdb_identity_text(bytes: Seq<u8>) -> Option<Seq<char>> {
    match pdb_signature(bytes) {
        Some((guid, age)) => identity_text(None, None, Some((guid, age, Seq::empty()))),
        None => None,
    }
}

fn has_magic(bytes: &[u8]) -> (has: bool)
    requires
        bytes@.len() >= HEADER_BYTES,
    ensures
        has == (bytes@.take(32) == container_magic()),
{
    let magic: Vec<u8> = vec![
        0x4d, 0x69, 0x63, 0x72, 0x6f, 0x73, 0x6f, 0x66, 0x74, 0x20, 0x43, 0x2f, 0x43, 0x2b, 0x2b,
        0x20, 0x4d, 0x53, 0x46, 0x20, 0x37, 0x2e, 0x30, 0x30, 0x0d, 0x0a, 0x1a, 0x44, 0x53, 0x00,
        0x00, 0x00,
    ];
    assert(magic@ =~= container_magic());
    for at in 0..32
        invariant
            bytes@.len() >= HEADER_BYTES,
            magic@ == container_magic(),
            forall|i: int| 0 <= i < at ==> bytes@[i] == magic@[i],
    {
        if bytes[at] != magic[at] {
            assert(bytes@.take(32)[at as int] != container_magic()[at as int]);
            return false;
        }
    }
    assert(bytes@.take(32) =~= container_magic());
    true
}

fn read_word(bytes: &[u8], at: u64) -> (word: Option<u32>)
    ensures
        match word {
            Some(word) => word_at(bytes@, at as nat) == Some(word as nat),
            None => word_at(bytes@, at as nat) is None,
        },
{
    let total = bytes.len() as u64;
    if total < 4 || at > total - 4 {
        return None;
    }
    Some(read_u32(bytes, at as usize))
}

fn read_directory(bytes: &[u8], index: u64) -> (word: Option<u32>)
    requires
        is_container(bytes@),
        index <= 0x4_0000_0000,
    ensures
        match word {
            Some(word) => directory_word(bytes@, index as nat) == Some(word as nat),
            None => directory_word(bytes@, index as nat) is None,
        },
{
    let total = bytes.len();
    let size = read_u32(bytes, 32) as u64;
    let length = read_u32(bytes, 44) as u64;
    let map = read_u32(bytes, 52) as u64;
    if 4 * index + 4 > length {
        return None;
    }
    let within = 4 * index / size;
    let rest = 4 * index % size;
    assert(512 * within <= 4 * index && rest < size) by (nonlinear_arith)
        requires
            size >= 512,
            within == (4 * index) as int / size as int,
            rest == (4 * index) as int % size as int,
    ;
    assert(map * size <= 0xffff_ffff * 0xffff_ffff) by (nonlinear_arith)
        requires
            map <= 0xffff_ffff,
            size <= 0xffff_ffff,
    ;
    match read_word(bytes, map * size + 4 * within) {
        Some(block) => {
            assert(block as u64 * size <= 0xffff_ffff * 0xffff_ffff) by (nonlinear_arith)
                requires
                    block <= 0xffff_ffff,
                    size <= 0xffff_ffff,
            ;
            read_word(bytes, block as u64 * size + rest)
        },
        None => None,
    }
}

fn count_blocks(bytes: &[u8], stream: u64) -> (before: Option<u64>)
    requires
        is_container(bytes@),
        stream <= 3,
    ensures
        match before {
            Some(before) => blocks_before(bytes@, stream as nat) == Some(before as nat) && before
                <= stream * 0x100_0000,
            None => blocks_before(bytes@, stream as nat) is None,
        },
    decreases stream,
{
    if stream == 0 {
        return Some(0);
    }
    let total = bytes.len();
    let size = read_u32(bytes, 32) as u64;
    let before = match count_blocks(bytes, stream - 1) {
        Some(before) => before,
        None => {
            return None;
        },
    };
    let length = match read_directory(bytes, stream) {
        Some(length) => length,
        None => {
            return None;
        },
    };
    if length == NO_STREAM {
        return Some(before);
    }
    let blocks = (length as u64 + size - 1) / size;
    assert(blocks <= 0x100_0000) by (nonlinear_arith)
        requires
            blocks == (length + size - 1) / size as int,
            length <= 0xffff_ffff,
            512 <= size <= 0xffff_ffff,
    ;
    Some(before + blocks)
}

fn find_stream(bytes: &[u8], stream: u64, least: u32) -> (start: Option<usize>)
    requires
        is_container(bytes@),
        stream <= 3,
    ensures
        match start {
            Some(start) => stream_start(bytes@, stream as nat, least as nat) == Some(start as nat)
                && start + least <= bytes@.len(),
            None => stream_start(bytes@, stream as nat, least as nat) is None,
        },
{
    let total = bytes.len() as u64;
    let size = read_u32(bytes, 32) as u64;
    match (
        read_directory(bytes, 0),
        read_directory(bytes, stream + 1),
        count_blocks(bytes, stream),
    ) {
        (Some(streams), Some(length), Some(before)) => {
            if stream >= streams as u64 || length < least || length == NO_STREAM {
                return None;
            }
            match read_directory(bytes, 1 + streams as u64 + before) {
                Some(block) => {
                    assert(block as u64 * size <= 0xffff_ffff * 0xffff_ffff) by (nonlinear_arith)
                        requires
                            block <= 0xffff_ffff,
                            size <= 0xffff_ffff,
                    ;
                    let start: u64 = block as u64 * size;
                    if start + least as u64 <= total {
                        Some(start as usize)
                    } else {
                        None
                    }
                },
                None => None,
            }
        },
        _ => None,
    }
}

/// The identity that a PDB carries, if the bytes are one.
pub fn pdb_identity(bytes: &[u8]) -> (identity: Option<String>)
    ensures
        match identity {
            Some(identity) => pdb_identity_text(bytes@) == Some(identity@),
            None => pdb_identity_text(bytes@) is None,
        },
{
    if bytes.len() < HEADER_BYTES || !has_magic(bytes) {
        return None;
    }
    let size = read_u32(bytes, 32);
    if size < 512 || size % 4 != 0 {
        return None;
    }
    let info = match find_stream(bytes, 1, 28) {
        Some(info) => info,
        None => {
            return None;
        },
    };
    let total = bytes.len();
    let mut guid: Vec<u8> = Vec::new();
    for at in 0..16usize
        invariant
            total == bytes@.len(),
            info + 28 <= bytes@.len(),
            guid@ == bytes@.subrange(info + 12, info + 12 + at),
    {
        guid.push(bytes[info + 12 + at]);
        assert(guid@ =~= bytes@.subrange(info + 12, info + 12 + at + 1));
    }
    let age = match find_stream(bytes, 3, 12) {
        Some(debug) => if read_u32(bytes, debug) == NO_STREAM {
            read_u32(bytes, debug + 8)
        } else {
            read_u32(bytes, info + 8)
        },
        None => read_u32(bytes, info + 8),
    };
    let path: Vec<u8> = Vec::new();
    assert(path@ =~= Seq::<u8>::empty());
    spell_identity(&None, &None, &Some(PdbInfo { guid, age, path }))
}

/// Blocks are as many as it takes to hold a length, and none for a stream that is not there.
pub proof fn blocks_hold_their_stream(length: nat, size: nat)
    requires
        size > 0,
    ensures
        length != 0xffff_ffff ==> {
            &&& blocks_for(length, size) * size >= length
            &&& length > 0 ==> (blocks_for(length, size) - 1) * size < length
            &&& length == 0 ==> blocks_for(length, size) == 0
        },
        blocks_for(0xffff_ffff, size) == 0,
{
    let filled = (length + size - 1) as nat;
    let count = filled / size;
    assert(count * size <= filled < (count + 1) * size) by (nonlinear_arith)
        requires
            size > 0,
            count == filled / size,
    ;
    assert((count + 1) * size == count * size + size) by (nonlinear_arith);
    assert((count - 1) * size == count * size - size) by (nonlinear_arith);
    if length == 0 {
        assert(count == 0) by (nonlinear_arith)
            requires
                count * size <= size - 1,
                size > 0,
                count >= 0,
        ;
    }
}

/// A directory that fits in one block is read straight out of that block: each stream's length
/// in turn behind their number, then the blocks of the streams, stream after stream.
pub proof fn directories_list_lengths_then_blocks(bytes: Seq<u8>, index: nat)
    requires
        block_size(bytes) >= 512,
        le_at(bytes, 44, 4) <= block_size(bytes),
    ensures
        ({
            let size = block_size(bytes);
            let map = le_at(bytes, 52, 4) * size;
            let block = le_at(bytes, map as int, 4) * size;
            &&& 4 * index + 4 > le_at(bytes, 44, 4) ==> directory_word(bytes, index) is None
            &&& 4 * index + 4 <= le_at(bytes, 44, 4) && map + 4 <= bytes.len() && block + 4 * index
                + 4 <= bytes.len() ==> directory_word(bytes, index) == Some(
                le_at(bytes, (block + 4 * index) as int, 4),
            )
        }),
{
    let size = block_size(bytes);
    if 4 * index + 4 <= le_at(bytes, 44, 4) {
        let word: nat = 4 * index;
        assert(word / size == 0) by (nonlinear_arith)
            requires
                0 <= word < size,
        ;
        assert(word % size == word) by (nonlinear_arith)
            requires
                0 <= word < size,
        ;
    }
}

/// A stream starts at the block listed behind those of the streams before it.
pub proof fn streams_start_at_their_listed_block(bytes: Seq<u8>, stream: nat, least: nat)
    requires
        directory_word(bytes, 0) is Some,
        directory_word(bytes, stream + 1) is Some,
        blocks_before(bytes, stream) is Some,
    ensures
        blocks_before(bytes, 0) == Some(0nat),
        blocks_before(bytes, stream + 1) == Some(
            blocks_before(bytes, stream)->Some_0 + blocks_for(
                directory_word(bytes, stream + 1)->Some_0,
                block_size(bytes),
            ),
        ),
        ({
            let streams = directory_word(bytes, 0)->Some_0;
            let length = directory_word(bytes, stream + 1)->Some_0;
            let listed = directory_word(bytes, 1 + streams + blocks_before(bytes, stream)->Some_0);
            match stream_start(bytes, stream, least) {
                Some(start) => {
                    &&& stream < streams
                    &&& least <= length
                    &&& length != 0xffff_ffff
                    &&& start + least <= bytes.len()
                    &&& listed is Some
                    &&& start == listed->Some_0 * block_size(bytes)
                },
                None => {
                    ||| stream >= streams
                    ||| length < least
                    ||| length == 0xffff_ffff
                    ||| listed is None
                    ||| listed->Some_0 * block_size(bytes) + least > bytes.len()
                },
            }
        }),
{
}

/// The GUID is the sixteen bytes at the twelfth of the information stream. The age is that of
/// the debug stream where it is marked as one of today's, else that of the information stream.
pub proof fn signatures_are_read_from_their_streams(bytes: Seq<u8>)
    ensures
        pdb_signature(bytes) is Some <==> is_container(bytes) && stream_start(bytes, 1, 28) is Some,
        pdb_signature(bytes) is Some ==> {
            let info = stream_start(bytes, 1, 28)->Some_0 as int;
            let (guid, age) = pdb_signature(bytes)->Some_0;
            let debug = stream_start(bytes, 3, 12);
            &&& guid.len() == 16
            &&& forall|i: int| 0 <= i < 16 ==> #[trigger] guid[i] == bytes[info + 12 + i]
            &&& debug is None ==> age == le_at(bytes, info + 8, 4)
            &&& debug is Some ==> {
                let at = debug->Some_0 as int;
                let marked = le_at(bytes, at, 4) == 0xffff_ffff;
                &&& marked ==> age == le_at(bytes, at + 8, 4)
                &&& !marked ==> age == le_at(bytes, info + 8, 4)
            }
        },
{
    if is_container(bytes) {
        if let Some(info) = stream_start(bytes, 1, 28) {
            assert(info + 28 <= bytes.len());
            low_bytes_come_first(bytes, info as int + 8);
            if let Some(debug) = stream_start(bytes, 3, 12) {
                low_bytes_come_first(bytes, debug as int + 8);
            }
        }
    }
}

} // verus!
