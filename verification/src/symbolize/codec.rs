//! The protobuf wire format: a message is a run of tagged fields.
//!
//! A reader sees the bytes as a sequence of [`Field`]s and knows nothing of any
//! message type. Field kinds that no message of this crate uses are recognised
//! so that they can be stepped over, and come out as [`FieldValue::Other`].
use vstd::prelude::*;
use vstd::slice::slice_subrange;

use crate::strings::{decimal, decimal_text, join2, join3};

verus! {

/// How deep unknown groups may nest below the outermost message.
pub const RECURSION_LIMIT: u32 = 100;

/// The largest field number that a key can carry.
pub const MAX_TAG: u32 = 0x1fff_ffff;

/// One field as it stands on the wire.
#[derive(Clone, Debug, PartialEq, Eq)]
pub struct Field {
    pub tag: u32,
    pub value: FieldValue,
}

/// The payload of one field.
#[derive(Clone, Debug, PartialEq, Eq)]
pub enum FieldValue {
    Varint(u64),
    Bytes(Vec<u8>),
    /// A fixed-width number or a group: stepped over, never interpreted.
    Other,
}

/// Why bytes could not be read as a message.
#[derive(Clone, Copy, Debug, PartialEq, Eq, Structural)]
pub enum WireFault {
    InvalidVarint,
    InvalidKey { key: u64 },
    InvalidWireType { value: u64 },
    InvalidTag,
    UnexpectedWireType { actual: u8, expected: u8 },
    BufferUnderflow,
    DelimitedLengthExceeded,
    UnexpectedEndGroupTag,
    RecursionLimitReached,
    InvalidString,
}

/// What a wire type is called.
pub open spec fn wire_name(wire: u8) -> Seq<char> {
    if wire == 0 {
        "Varint"@
    } else if wire == 1 {
        "SixtyFourBit"@
    } else if wire == 2 {
        "LengthDelimited"@
    } else if wire == 3 {
        "StartGroup"@
    } else if wire == 4 {
        "EndGroup"@
    } else {
        "ThirtyTwoBit"@
    }
}

fn name_of_wire(wire: u8) -> (name: &'static str)
    ensures
        name@ == wire_name(wire),
{
    match wire {
        0 => "Varint",
        1 => "SixtyFourBit",
        2 => "LengthDelimited",
        3 => "StartGroup",
        4 => "EndGroup",
        _ => "ThirtyTwoBit",
    }
}

impl WireFault {
    /// A phrase for people.
    pub open spec fn text(self) -> Seq<char> {
        match self {
            WireFault::InvalidVarint => "invalid varint"@,
            WireFault::InvalidKey { key } => "invalid key value: "@ + decimal(key as nat),
            WireFault::InvalidWireType { value } => "invalid wire type value: "@ + decimal(
                value as nat,
            ),
            WireFault::InvalidTag => "invalid tag value: 0"@,
            WireFault::UnexpectedWireType { actual, expected } => "invalid wire type: "@
                + wire_name(actual) + " (expected "@ + wire_name(expected) + ")"@,
            WireFault::BufferUnderflow => "buffer underflow"@,
            WireFault::DelimitedLengthExceeded => "delimited length exceeded"@,
            WireFault::UnexpectedEndGroupTag => "unexpected end group tag"@,
            WireFault::RecursionLimitReached => "recursion limit reached"@,
            WireFault::InvalidString => "invalid string value: data is not UTF-8 encoded"@,
        }
    }

    pub fn description(&self) -> (phrase: String)
        ensures
            phrase@ == self.text(),
    {
        match *self {
            WireFault::InvalidVarint => "invalid varint".to_owned(),
            WireFault::InvalidKey { key } => join2(
                "invalid key value: ",
                decimal_text(key).as_str(),
            ),
            WireFault::InvalidWireType { value } => join2(
                "invalid wire type value: ",
                decimal_text(value).as_str(),
            ),
            WireFault::InvalidTag => "invalid tag value: 0".to_owned(),
            WireFault::UnexpectedWireType { actual, expected } => {
                let front = join3("invalid wire type: ", name_of_wire(actual), " (expected ");
                join3(front.as_str(), name_of_wire(expected), ")")
            },
            WireFault::BufferUnderflow => "buffer underflow".to_owned(),
            WireFault::DelimitedLengthExceeded => "delimited length exceeded".to_owned(),
            WireFault::UnexpectedEndGroupTag => "unexpected end group tag".to_owned(),
            WireFault::RecursionLimitReached => "recursion limit reached".to_owned(),
            WireFault::InvalidString =>
                "invalid string value: data is not UTF-8 encoded".to_owned(),
        }
    }
}

/// Mathematical counterpart of [`Field`].
pub struct FieldModel {
    pub tag: u32,
    pub value: ValueModel,
}

/// Mathematical counterpart of [`FieldValue`].
pub enum ValueModel {
    Varint(u64),
    Bytes(Seq<u8>),
    Other,
}

impl View for FieldValue {
    type V = ValueModel;

    open spec fn view(&self) -> ValueModel {
        match *self {
            FieldValue::Varint(value) => ValueModel::Varint(value),
            FieldValue::Bytes(bytes) => ValueModel::Bytes(bytes@),
            FieldValue::Other => ValueModel::Other,
        }
    }
}

impl View for Field {
    type V = FieldModel;

    open spec fn view(&self) -> FieldModel {
        FieldModel { tag: self.tag, value: self.value@ }
    }
}

/// The models of a list of fields.
pub open spec fn field_models(fields: Seq<Field>) -> Seq<FieldModel> {
    fields.map_values(|field: Field| field@)
}

// ---------------------------------------------------------------------------
// Variable-length integers
// ---------------------------------------------------------------------------

/// `value` in base 128, least significant digit first, with the top bit set on
/// every byte but the last.
pub open spec fn varint(value: nat) -> Seq<u8>
    decreases value,
{
    if value < 128 {
        seq![value as u8]
    } else {
        seq![(value % 128 + 128) as u8] + varint(value / 128)
    }
}

/// The number whose base-128 digits are the low seven bits of `bytes`.
pub open spec fn base128(bytes: Seq<u8>) -> nat
    decreases bytes.len(),
{
    if bytes.len() == 0 {
        0
    } else {
        (bytes[0] % 128) as nat + 128 * base128(bytes.drop_first())
    }
}

/// Where the variable-length integer that starts at 0 ends, looking from `at`:
/// past the first byte under 128. It spans ten bytes at most, and the tenth may
/// only add the one bit that still fits in 64.
pub open spec fn varint_end(bytes: Seq<u8>, at: nat) -> Option<nat>
    decreases 10 - at,
{
    if at >= 10 || at >= bytes.len() {
        None
    } else if bytes[at as int] >= 128 {
        varint_end(bytes, at + 1)
    } else if at == 9 && bytes[at as int] > 1 {
        None
    } else {
        Some(at + 1)
    }
}

/// The integer at the front of `bytes`, and what follows it.
pub open spec fn read_varint(bytes: Seq<u8>) -> Option<(u64, Seq<u8>)> {
    match varint_end(bytes, 0) {
        None => None,
        Some(end) => Some((base128(bytes.take(end as int)) as u64, bytes.skip(end as int))),
    }
}

pub proof fn lemma_varint_end_bounds(bytes: Seq<u8>, at: nat)
    ensures
        match varint_end(bytes, at) {
            None => true,
            Some(end) => at < end <= bytes.len() && end <= 10,
        },
    decreases 10 - at,
{
    if at < 10 && at < bytes.len() && bytes[at as int] >= 128 {
        lemma_varint_end_bounds(bytes, at + 1);
    }
}

proof fn lemma_read_varint_shrinks(bytes: Seq<u8>)
    ensures
        match read_varint(bytes) {
            None => true,
            Some((value, rest)) => rest.len() < bytes.len(),
        },
{
    lemma_varint_end_bounds(bytes, 0);
}

/// One more than the largest value that may start at byte `at` of an integer.
spec fn varint_room(at: nat) -> nat
    decreases 9 - at,
{
    if at >= 9 {
        2
    } else {
        128 * varint_room(at + 1)
    }
}

proof fn lemma_varint_end_of_encoded(bytes: Seq<u8>, at: nat, value: nat, rest: Seq<u8>)
    requires
        at <= 9,
        at <= bytes.len(),
        bytes.skip(at as int) == varint(value) + rest,
        value < varint_room(at),
    ensures
        varint_end(bytes, at) == Some((at + varint(value).len()) as nat),
        varint(value).len() >= 1,
    decreases 9 - at,
{
    let tail = bytes.skip(at as int);
    assert(varint(value).len() >= 1);
    assert(tail.len() == varint(value).len() + rest.len());
    assert(tail[0] == varint(value)[0]);
    assert(bytes[at as int] == tail[0]);
    if value >= 128 {
        assert(at < 9);
        assert(varint(value).drop_first() =~= varint(value / 128));
        assert(bytes.skip((at + 1) as int) =~= tail.drop_first());
        assert(tail.drop_first() =~= varint(value / 128) + rest);
        assert(value / 128 < varint_room(at + 1));
        lemma_varint_end_of_encoded(bytes, at + 1, value / 128, rest);
        assert((value % 128 + 128) as u8 >= 128);
    }
}

proof fn lemma_base128_of_varint(value: nat)
    ensures
        base128(varint(value)) == value,
    decreases value,
{
    if value >= 128 {
        lemma_base128_of_varint(value / 128);
        assert(varint(value).drop_first() =~= varint(value / 128));
        assert(((value % 128 + 128) as u8) % 128 == value % 128);
    } else {
        assert(varint(value).drop_first() =~= Seq::<u8>::empty());
        assert(base128(Seq::<u8>::empty()) == 0);
    }
}

/// An integer that was written is read back, whatever follows it.
pub proof fn lemma_varint_round_trip(value: u64, rest: Seq<u8>)
    ensures
        read_varint(varint(value as nat) + rest) == Some((value, rest)),
{
    let bytes = varint(value as nat) + rest;
    assert(varint_room(0) == 0x1_0000_0000_0000_0000) by {
        reveal_with_fuel(varint_room, 11);
    }
    assert(bytes.skip(0) =~= bytes);
    lemma_varint_end_of_encoded(bytes, 0, value as nat, rest);
    let end = varint(value as nat).len();
    assert(bytes.take(end as int) =~= varint(value as nat));
    assert(bytes.skip(end as int) =~= rest);
    lemma_base128_of_varint(value as nat);
}

/// `prost::encoding::encode_varint`: appends `value` in base 128.
#[verifier::external_body]
pub(crate) fn put_varint(value: u64, out: &mut Vec<u8>)
    ensures
        final(out)@ == old(out)@ + varint(value as nat),
{
    prost::encoding::encode_varint(value, out)
}

/// `prost::encoding::decode_varint`: takes one base-128 integer off the front of
/// the bytes, or fails where none ends within ten bytes or it exceeds 64 bits. Its
/// only fault is an invalid integer.
#[verifier::external_body]
pub(crate) fn take_varint(bytes: &[u8]) -> (taken: Result<(u64, &[u8]), WireFault>)
    ensures
        match taken {
            Ok((value, rest)) => read_varint(bytes@) == Some((value, rest@)),
            Err(fault) => read_varint(bytes@) is None && fault == WireFault::InvalidVarint,
        },
{
    let mut rest = bytes;
    match prost::encoding::decode_varint(&mut rest) {
        Ok(value) => Ok((value, rest)),
        Err(_) => Err(WireFault::InvalidVarint),
    }
}

// ---------------------------------------------------------------------------
// Keys and values
// ---------------------------------------------------------------------------

/// The field number and wire type at the front of `bytes`, and what follows.
pub open spec fn read_key(bytes: Seq<u8>) -> Option<(u32, u8, Seq<u8>)> {
    match read_varint(bytes) {
        None => None,
        Some((key, rest)) => if key > u32::MAX || key % 8 > 5 || key / 8 == 0 {
            None
        } else {
            Some(((key / 8) as u32, (key % 8) as u8, rest))
        },
    }
}

/// What is wrong with the key at the front of `bytes`, where there is none.
pub open spec fn key_fault(bytes: Seq<u8>) -> WireFault {
    match read_varint(bytes) {
        None => WireFault::InvalidVarint,
        Some((key, rest)) => if key > u32::MAX {
            WireFault::InvalidKey { key }
        } else if key % 8 > 5 {
            WireFault::InvalidWireType { value: key % 8 }
        } else {
            WireFault::InvalidTag
        },
    }
}

/// What follows a value of the given wire type that nobody wants.
///
/// Wire types: 0 a variable-length integer, 1 eight bytes, 2 a length and that
/// many bytes, 3 a group of fields closed by an end key with the same number,
/// 5 four bytes. A stray end of group (4) is malformed, and so is anything
/// nested deeper than `budget`.
pub open spec fn skip_value(wire: u8, tag: u32, bytes: Seq<u8>, budget: nat) -> Option<Seq<u8>>
    decreases budget, bytes.len(), 1nat,
{
    if budget == 0 {
        None
    } else if wire == 0 {
        match read_varint(bytes) {
            None => None,
            Some((value, rest)) => Some(rest),
        }
    } else if wire == 1 {
        if bytes.len() < 8 { None } else { Some(bytes.skip(8)) }
    } else if wire == 2 {
        match read_varint(bytes) {
            None => None,
            Some((length, rest)) => if length > rest.len() {
                None
            } else {
                Some(rest.skip(length as int))
            },
        }
    } else if wire == 3 {
        skip_group(tag, bytes, budget)
    } else if wire == 5 {
        if bytes.len() < 4 { None } else { Some(bytes.skip(4)) }
    } else {
        None
    }
}

/// What follows the group numbered `tag` whose fields start at the front.
pub open spec fn skip_group(tag: u32, bytes: Seq<u8>, budget: nat) -> Option<Seq<u8>>
    decreases budget, bytes.len(), 0nat,
{
    match read_key(bytes) {
        None => None,
        Some((inner, wire, rest)) => if wire == 4 {
            if inner == tag { Some(rest) } else { None }
        } else if budget == 0 {
            None
        } else {
            match skip_value(wire, inner, rest, (budget - 1) as nat) {
                None => None,
                // Every field takes at least one byte.
                Some(rest) => if rest.len() < bytes.len() {
                    skip_group(tag, rest, budget)
                } else {
                    None
                },
            }
        },
    }
}

/// What is wrong with a value that cannot be stepped over.
pub open spec fn skip_fault(wire: u8, tag: u32, bytes: Seq<u8>, budget: nat) -> WireFault
    decreases budget, bytes.len(), 1nat,
{
    if budget == 0 {
        WireFault::RecursionLimitReached
    } else if wire == 0 {
        WireFault::InvalidVarint
    } else if wire == 1 || wire == 5 {
        WireFault::BufferUnderflow
    } else if wire == 2 {
        match read_varint(bytes) {
            None => WireFault::InvalidVarint,
            Some(_) => WireFault::BufferUnderflow,
        }
    } else if wire == 3 {
        group_fault(tag, bytes, budget)
    } else {
        WireFault::UnexpectedEndGroupTag
    }
}

/// What is wrong with a group that cannot be stepped over.
pub open spec fn group_fault(tag: u32, bytes: Seq<u8>, budget: nat) -> WireFault
    decreases budget, bytes.len(), 0nat,
{
    match read_key(bytes) {
        None => key_fault(bytes),
        Some((inner, wire, rest)) => if wire == 4 {
            WireFault::UnexpectedEndGroupTag
        } else if budget == 0 {
            WireFault::RecursionLimitReached
        } else {
            match skip_value(wire, inner, rest, (budget - 1) as nat) {
                Some(next) if next.len() < bytes.len() => group_fault(tag, next, budget),
                _ => skip_fault(wire, inner, rest, (budget - 1) as nat),
            }
        },
    }
}

proof fn lemma_skip_value_shrinks(wire: u8, tag: u32, bytes: Seq<u8>, budget: nat)
    ensures
        match skip_value(wire, tag, bytes, budget) {
            None => true,
            Some(rest) => rest.len() <= bytes.len(),
        },
    decreases budget, bytes.len(), 1nat,
{
    lemma_read_varint_shrinks(bytes);
    if wire == 3 && budget > 0 {
        lemma_skip_group_shrinks(tag, bytes, budget);
    }
}

proof fn lemma_skip_group_shrinks(tag: u32, bytes: Seq<u8>, budget: nat)
    ensures
        match skip_group(tag, bytes, budget) {
            None => true,
            Some(rest) => rest.len() < bytes.len(),
        },
    decreases budget, bytes.len(), 0nat,
{
    lemma_read_varint_shrinks(bytes);
    match read_key(bytes) {
        None => {},
        Some((inner, wire, rest)) => if wire != 4 && budget > 0 {
            lemma_skip_value_shrinks(wire, inner, rest, (budget - 1) as nat);
            match skip_value(wire, inner, rest, (budget - 1) as nat) {
                None => {},
                Some(left) => lemma_skip_group_shrinks(tag, left, budget),
            }
        },
    }
}

/// The field at the front of `bytes`, and what follows it.
pub open spec fn read_field(bytes: Seq<u8>, budget: nat) -> Option<(FieldModel, Seq<u8>)> {
    match read_key(bytes) {
        None => None,
        Some((tag, wire, rest)) => if wire == 0 {
            match read_varint(rest) {
                None => None,
                Some((value, rest)) => Some(
                    (FieldModel { tag, value: ValueModel::Varint(value) }, rest),
                ),
            }
        } else if wire == 2 {
            match read_varint(rest) {
                None => None,
                Some((length, rest)) => if length > rest.len() {
                    None
                } else {
                    Some(
                        (
                            FieldModel { tag, value: ValueModel::Bytes(rest.take(length as int)) },
                            rest.skip(length as int),
                        ),
                    )
                },
            }
        } else {
            match skip_value(wire, tag, rest, budget) {
                None => None,
                Some(rest) => Some((FieldModel { tag, value: ValueModel::Other }, rest)),
            }
        },
    }
}

/// The fields that `bytes` hold from end to end, or `None` where they are not
/// a whole number of well-formed fields.
pub open spec fn read_fields(bytes: Seq<u8>, budget: nat) -> Option<Seq<FieldModel>>
    decreases bytes.len(),
{
    if bytes.len() == 0 {
        Some(Seq::empty())
    } else {
        match read_field(bytes, budget) {
            None => None,
            // Every field takes at least one byte.
            Some((field, rest)) => if rest.len() >= bytes.len() {
                None
            } else {
                match read_fields(rest, budget) {
                    None => None,
                    Some(fields) => Some(seq![field] + fields),
                }
            },
        }
    }
}

pub proof fn lemma_read_field_shrinks(bytes: Seq<u8>, budget: nat)
    ensures
        match read_field(bytes, budget) {
            None => true,
            Some((field, rest)) => rest.len() < bytes.len(),
        },
{
    lemma_read_varint_shrinks(bytes);
    match read_key(bytes) {
        None => {},
        Some((tag, wire, rest)) => {
            lemma_read_varint_shrinks(rest);
            lemma_skip_value_shrinks(wire, tag, rest, budget);
        },
    }
}

/// What follows a field is the end of the bytes that it was read from.
pub proof fn lemma_read_field_rest(bytes: Seq<u8>, budget: nat)
    ensures
        match read_field(bytes, budget) {
            None => true,
            Some((field, rest)) => rest.len() <= bytes.len() && rest == bytes.skip(
                bytes.len() - rest.len(),
            ),
        },
{
    lemma_varint_end_bounds(bytes, 0);
    match read_key(bytes) {
        None => {},
        Some((tag, wire, after)) => {
            assert(after == bytes.skip(bytes.len() - after.len()));
            lemma_varint_end_bounds(after, 0);
            lemma_skip_value_rest(wire, tag, after, budget);
            match read_field(bytes, budget) {
                None => {},
                Some((field, rest)) => {
                    if wire == 2 {
                        let (length, front) = read_varint(after)->Some_0;
                        assert(front.len() >= length);
                        assert(rest =~= front.skip(length as int));
                    }
                    assert(rest.len() <= after.len());
                    assert(rest =~= after.skip(after.len() - rest.len()));
                    assert(rest =~= bytes.skip(bytes.len() - rest.len()));
                },
            }
        },
    }
}

proof fn lemma_skip_value_rest(wire: u8, tag: u32, bytes: Seq<u8>, budget: nat)
    ensures
        match skip_value(wire, tag, bytes, budget) {
            None => true,
            Some(rest) => rest.len() <= bytes.len() && rest == bytes.skip(
                bytes.len() - rest.len(),
            ),
        },
    decreases budget, bytes.len(), 1nat,
{
    lemma_varint_end_bounds(bytes, 0);
    if wire == 3 && budget > 0 {
        lemma_skip_group_rest(tag, bytes, budget);
    } else if wire == 2 && budget > 0 {
        match read_varint(bytes) {
            None => {},
            Some((length, after)) => if length <= after.len() {
                let rest = after.skip(length as int);
                assert(rest =~= bytes.skip(bytes.len() - rest.len()));
            },
        }
    }
}

proof fn lemma_skip_group_rest(tag: u32, bytes: Seq<u8>, budget: nat)
    ensures
        match skip_group(tag, bytes, budget) {
            None => true,
            Some(rest) => rest.len() <= bytes.len() && rest == bytes.skip(
                bytes.len() - rest.len(),
            ),
        },
    decreases budget, bytes.len(), 0nat,
{
    lemma_varint_end_bounds(bytes, 0);
    lemma_read_varint_shrinks(bytes);
    match read_key(bytes) {
        None => {},
        Some((inner, wire, after)) => {
            assert(after == bytes.skip(bytes.len() - after.len()));
            if wire != 4 && budget > 0 {
                lemma_skip_value_rest(wire, inner, after, (budget - 1) as nat);
                lemma_skip_value_shrinks(wire, inner, after, (budget - 1) as nat);
                match skip_value(wire, inner, after, (budget - 1) as nat) {
                    None => {},
                    Some(left) => {
                        assert(left =~= bytes.skip(bytes.len() - left.len()));
                        lemma_skip_group_rest(tag, left, budget);
                        match skip_group(tag, left, budget) {
                            None => {},
                            Some(rest) => {
                                assert(rest =~= bytes.skip(bytes.len() - rest.len()));
                            },
                        }
                    },
                }
            }
        },
    }
}

/// A field in bytes: its key, then its payload.
pub open spec fn write_field(field: FieldModel) -> Seq<u8> {
    match field.value {
        ValueModel::Varint(value) => varint((field.tag * 8) as nat) + varint(value as nat),
        ValueModel::Bytes(bytes) => varint((field.tag * 8 + 2) as nat) + varint(bytes.len())
            + bytes,
        ValueModel::Other => Seq::empty(),
    }
}

/// Fields in bytes, one after the other.
#[verifier::opaque]
pub open spec fn write_fields(fields: Seq<FieldModel>) -> Seq<u8>
    decreases fields.len(),
{
    if fields.len() == 0 {
        Seq::empty()
    } else {
        write_fields(fields.drop_last()) + write_field(fields.last())
    }
}

/// A field that the wire can carry: its number fits in a key, and it holds an
/// integer or a run of bytes whose length fits in one.
pub open spec fn writable(field: FieldModel) -> bool {
    &&& 1 <= field.tag <= MAX_TAG
    &&& match field.value {
        ValueModel::Varint(value) => true,
        ValueModel::Bytes(bytes) => bytes.len() <= u64::MAX,
        ValueModel::Other => false,
    }
}

/// A field that was written is read back, whatever follows it.
pub proof fn lemma_field_round_trip(field: FieldModel, rest: Seq<u8>, budget: nat)
    requires
        writable(field),
    ensures
        read_field(write_field(field) + rest, budget) == Some((field, rest)),
        write_field(field).len() > 0,
{
    let bytes = write_field(field) + rest;
    match field.value {
        ValueModel::Varint(value) => {
            let key = (field.tag * 8) as u64;
            let after = varint(value as nat) + rest;
            assert(bytes =~= varint(key as nat) + after);
            lemma_varint_round_trip(key, after);
            lemma_varint_round_trip(value, rest);
            lemma_varint_nonempty(key as nat);
            assert(read_key(bytes) == Some((field.tag, 0u8, after)));
        },
        ValueModel::Bytes(payload) => {
            let key = (field.tag * 8 + 2) as u64;
            let after = varint(payload.len()) + (payload + rest);
            assert(bytes =~= varint(key as nat) + after);
            lemma_varint_round_trip(key, after);
            assert(read_key(bytes) == Some((field.tag, 2u8, after)));
            lemma_varint_round_trip(payload.len() as u64, payload + rest);
            assert((payload + rest).take(payload.len() as int) =~= payload);
            assert((payload + rest).skip(payload.len() as int) =~= rest);
            lemma_varint_nonempty(key as nat);
        },
        ValueModel::Other => {},
    }
}

proof fn lemma_varint_nonempty(value: nat)
    ensures
        varint(value).len() >= 1,
{
}

/// Fields that were written are read back, in order and with nothing lost.
pub proof fn lemma_fields_round_trip(fields: Seq<FieldModel>, budget: nat)
    requires
        forall|i: int| 0 <= i < fields.len() ==> writable(#[trigger] fields[i]),
    ensures
        read_fields(write_fields(fields), budget) == Some(fields),
{
    lemma_fields_then(fields, Seq::empty(), budget);
    assert(write_fields(fields) + Seq::<u8>::empty() =~= write_fields(fields));
    assert(fields + Seq::<FieldModel>::empty() =~= fields);
}

proof fn lemma_fields_then(fields: Seq<FieldModel>, rest: Seq<u8>, budget: nat)
    requires
        forall|i: int| 0 <= i < fields.len() ==> writable(#[trigger] fields[i]),
    ensures
        read_fields(write_fields(fields) + rest, budget) == match read_fields(rest, budget) {
            None => None::<Seq<FieldModel>>,
            Some(more) => Some(fields + more),
        },
    decreases fields.len(),
{
    reveal(write_fields);
    if fields.len() == 0 {
        assert(write_fields(fields) + rest =~= rest);
        match read_fields(rest, budget) {
            None => {},
            Some(more) => assert(fields + more =~= more),
        }
    } else {
        let last = fields.last();
        let tail = write_field(last) + rest;
        assert(write_fields(fields) + rest =~= write_fields(fields.drop_last()) + tail);
        lemma_field_round_trip(last, rest, budget);
        lemma_fields_then(fields.drop_last(), tail, budget);
        match read_fields(rest, budget) {
            None => {},
            Some(more) => {
                assert(fields.drop_last() + (seq![last] + more) =~= fields + more);
            },
        }
    }
}

// ---------------------------------------------------------------------------
// Reading and writing fields
// ---------------------------------------------------------------------------

pub(crate) fn take_key(bytes: &[u8]) -> (taken: Result<(u32, u8, &[u8]), WireFault>)
    ensures
        match taken {
            Ok((tag, wire, rest)) => read_key(bytes@) == Some((tag, wire, rest@)),
            Err(fault) => read_key(bytes@) is None && fault == key_fault(bytes@),
        },
{
    let (key, rest) = match take_varint(bytes) {
        Ok(taken) => taken,
        Err(fault) => {
            return Err(fault);
        },
    };
    if key > u32::MAX as u64 {
        return Err(WireFault::InvalidKey { key });
    }
    if key % 8 > 5 {
        return Err(WireFault::InvalidWireType { value: key % 8 });
    }
    if key / 8 == 0 {
        return Err(WireFault::InvalidTag);
    }
    Ok(((key / 8) as u32, (key % 8) as u8, rest))
}

fn take_bytes(bytes: &[u8], length: u64) -> (taken: Result<(&[u8], &[u8]), WireFault>)
    ensures
        match taken {
            Ok((front, rest)) => length <= bytes@.len() && front@ == bytes@.take(length as int)
                && rest@ == bytes@.skip(length as int),
            Err(fault) => length > bytes@.len() && fault == WireFault::BufferUnderflow,
        },
{
    if length > bytes.len() as u64 {
        return Err(WireFault::BufferUnderflow);
    }
    let front = slice_subrange(bytes, 0, length as usize);
    let rest = slice_subrange(bytes, length as usize, bytes.len());
    Ok((front, rest))
}

/// Steps over a length and that many bytes.
fn pass_bytes(bytes: &[u8]) -> (passed: Result<&[u8], WireFault>)
    ensures
        match (passed, read_varint(bytes@)) {
            (Ok(rest), Some((length, after))) => length <= after.len() && rest@ == after.skip(
                length as int,
            ),
            (Err(fault), Some((length, after))) => length > after.len() && fault
                == WireFault::BufferUnderflow,
            (Err(fault), None) => fault == WireFault::InvalidVarint,
            (Ok(_), None) => false,
        },
{
    match take_varint(bytes) {
        Ok((length, rest)) => match take_bytes(rest, length) {
            Ok((_, rest)) => Ok(rest),
            Err(fault) => Err(fault),
        },
        Err(fault) => Err(fault),
    }
}

/// Steps over a value that no message of this crate asks for.
pub(crate) fn pass_value(wire: u8, tag: u32, bytes: &[u8], budget: u32) -> (passed: Result<
    &[u8],
    WireFault,
>)
    ensures
        match passed {
            Ok(rest) => skip_value(wire, tag, bytes@, budget as nat) == Some(rest@),
            Err(fault) => skip_value(wire, tag, bytes@, budget as nat) is None && fault
                == skip_fault(wire, tag, bytes@, budget as nat),
        },
    decreases budget, bytes@.len(), 1nat,
{
    if budget == 0 {
        return Err(WireFault::RecursionLimitReached);
    }
    if wire == 0 {
        match take_varint(bytes) {
            Ok((_, rest)) => Ok(rest),
            Err(fault) => Err(fault),
        }
    } else if wire == 1 {
        match take_bytes(bytes, 8) {
            Ok((_, rest)) => Ok(rest),
            Err(fault) => Err(fault),
        }
    } else if wire == 2 {
        pass_bytes(bytes)
    } else if wire == 3 {
        pass_group(tag, bytes, budget)
    } else if wire == 5 {
        match take_bytes(bytes, 4) {
            Ok((_, rest)) => Ok(rest),
            Err(fault) => Err(fault),
        }
    } else {
        Err(WireFault::UnexpectedEndGroupTag)
    }
}

fn pass_group(tag: u32, bytes: &[u8], budget: u32) -> (passed: Result<&[u8], WireFault>)
    requires
        budget > 0,
    ensures
        match passed {
            Ok(rest) => skip_group(tag, bytes@, budget as nat) == Some(rest@),
            Err(fault) => skip_group(tag, bytes@, budget as nat) is None && fault == group_fault(
                tag,
                bytes@,
                budget as nat,
            ),
        },
    decreases budget, bytes@.len(), 0nat,
{
    let mut left: &[u8] = bytes;
    loop
        invariant
            budget > 0,
            skip_group(tag, bytes@, budget as nat) == skip_group(tag, left@, budget as nat),
            group_fault(tag, bytes@, budget as nat) == group_fault(tag, left@, budget as nat),
        decreases left@.len(),
    {
        proof {
            lemma_read_varint_shrinks(left@);
        }
        let (inner, wire, rest) = match take_key(left) {
            Ok(key) => key,
            Err(fault) => {
                return Err(fault);
            },
        };
        if wire == 4 {
            if inner == tag {
                return Ok(rest);
            }
            return Err(WireFault::UnexpectedEndGroupTag);
        }
        proof {
            lemma_skip_value_shrinks(wire, inner, rest@, (budget - 1) as nat);
        }
        match pass_value(wire, inner, rest, budget - 1) {
            Ok(next) => {
                left = next;
            },
            Err(fault) => {
                return Err(fault);
            },
        }
    }
}

pub fn copy_bytes(bytes: &[u8]) -> (copy: Vec<u8>)
    ensures
        copy@ == bytes@,
{
    let mut copy: Vec<u8> = Vec::new();
    copy.extend_from_slice(bytes);
    assert(copy@ =~= bytes@);
    copy
}

/// Takes one field off the front of the bytes.
pub fn take_field(bytes: &[u8], budget: u32) -> (taken: Option<(Field, &[u8])>)
    ensures
        match taken {
            Some((field, rest)) => read_field(bytes@, budget as nat) == Some((field@, rest@)),
            None => read_field(bytes@, budget as nat) is None,
        },
{
    let (tag, wire, rest) = match take_key(bytes) {
        Ok(key) => key,
        Err(_) => {
            return None;
        },
    };
    if wire == 0 {
        match take_varint(rest) {
            Ok((value, rest)) => Some((Field { tag, value: FieldValue::Varint(value) }, rest)),
            Err(_) => None,
        }
    } else if wire == 2 {
        match take_varint(rest) {
            Ok((length, rest)) => match take_bytes(rest, length) {
                Ok((front, rest)) => Some(
                    (Field { tag, value: FieldValue::Bytes(copy_bytes(front)) }, rest),
                ),
                Err(_) => None,
            },
            Err(_) => None,
        }
    } else {
        match pass_value(wire, tag, rest, budget) {
            Ok(rest) => Some((Field { tag, value: FieldValue::Other }, rest)),
            Err(_) => None,
        }
    }
}

fn put_field(field: &Field, out: &mut Vec<u8>)
    requires
        field.tag <= MAX_TAG,
    ensures
        final(out)@ == old(out)@ + write_field(field@),
{
    match &field.value {
        FieldValue::Varint(value) => {
            put_varint(field.tag as u64 * 8, out);
            put_varint(*value, out);
            assert(out@ =~= old(out)@ + write_field(field@));
        },
        FieldValue::Bytes(bytes) => {
            put_varint(field.tag as u64 * 8 + 2, out);
            put_varint(bytes.len() as u64, out);
            out.extend_from_slice(bytes.as_slice());
            assert(out@ =~= old(out)@ + write_field(field@));
        },
        FieldValue::Other => {
            assert(out@ =~= old(out)@ + write_field(field@));
        },
    }
}

/// Writes fields one after the other.
pub fn encode_fields(fields: &Vec<Field>) -> (bytes: Vec<u8>)
    requires
        forall|i: int| 0 <= i < fields@.len() ==> (#[trigger] fields@[i]).tag <= MAX_TAG,
    ensures
        bytes@ == write_fields(field_models(fields@)),
{
    proof {
        reveal(write_fields);
    }
    let mut out: Vec<u8> = Vec::new();
    assert(field_models(fields@.take(0)) =~= Seq::<FieldModel>::empty());
    for at in 0..fields.len()
        invariant
            forall|i: int| 0 <= i < fields@.len() ==> (#[trigger] fields@[i]).tag <= MAX_TAG,
            out@ == write_fields(field_models(fields@.take(at as int))),
    {
        put_field(&fields[at], &mut out);
        proof {
            reveal(write_fields);
            let done = field_models(fields@.take(at + 1));
            assert(done.drop_last() =~= field_models(fields@.take(at as int)));
            assert(done.last() == fields@[at as int]@);
        }
    }
    assert(fields@.take(fields@.len() as int) =~= fields@);
    out
}

/// A field is its number and how its payload is to be read, then the payload: a number in base
/// 128, or a length and that many bytes.
pub proof fn fields_are_laid_out_as_published(tag: u32, number: u64, bytes: Seq<u8>)
    requires
        tag <= MAX_TAG,
    ensures
        write_field(FieldModel { tag, value: ValueModel::Varint(number) }) == varint(
            (8 * tag) as nat,
        ) + varint(number as nat),
        write_field(FieldModel { tag, value: ValueModel::Bytes(bytes) }) == varint(
            (8 * tag + 2) as nat,
        ) + varint(bytes.len()) + bytes,
{
}

/// The digits of a number in base 128: the lowest first, all but the last marked.
pub proof fn numbers_are_written_in_base_128(value: nat)
    ensures
        varint(value).len() >= 1,
        varint(value)[0] % 128 == value % 128,
        value < 128 <==> varint(value).len() == 1,
        value >= 128 ==> varint(value)[0] >= 128 && varint(value).drop_first() == varint(
            value / 128,
        ),
        value < 128 ==> varint(value)[0] == value,
{
    if value >= 128 {
        assert(varint(value).drop_first() =~= varint(value / 128));
        assert(varint(value / 128).len() >= 1);
        assert((value % 128 + 128) as u8 == value % 128 + 128);
    }
}

/// Fields are written one after the other.
pub proof fn fields_are_written_in_order(fields: Seq<FieldModel>, field: FieldModel)
    ensures
        write_fields(Seq::empty()) == Seq::<u8>::empty(),
        write_fields(fields.push(field)) == write_fields(fields) + write_field(field),
{
    reveal(write_fields);
    assert(fields.push(field).drop_last() =~= fields);
}

proof fn lemma_end_moves_on(bytes: Seq<u8>, first: u8, at: nat)
    ensures
        match varint_end(bytes, at) {
            Some(end) => end <= 8 ==> varint_end(seq![first] + bytes, at + 1) == Some(end + 1),
            None => at >= bytes.len() || (at <= bytes.len() && forall|i: int|
                at <= i < bytes.len() ==> bytes[i] >= 128) ==> varint_end(
                seq![first] + bytes,
                at + 1,
            ) is None,
        },
    decreases 10 - at,
{
    lemma_varint_end_bounds(bytes, at);
    let longer = seq![first] + bytes;
    if at < 10 && at < bytes.len() {
        assert(longer[(at + 1) as int] == bytes[at as int]);
        if bytes[at as int] >= 128 {
            lemma_end_moves_on(bytes, first, at + 1);
        }
    }
}

proof fn lemma_small_number(bytes: Seq<u8>)
    requires
        bytes.len() <= 9,
    ensures
        base128(bytes) < 0x8000_0000_0000_0000,
        bytes.len() <= 8 ==> base128(bytes) < 0x100_0000_0000_0000,
        bytes.len() <= 7 ==> base128(bytes) < 0x2_0000_0000_0000,
        bytes.len() <= 6 ==> base128(bytes) < 0x400_0000_0000,
        bytes.len() <= 5 ==> base128(bytes) < 0x8_0000_0000,
        bytes.len() <= 4 ==> base128(bytes) < 0x1000_0000,
        bytes.len() <= 3 ==> base128(bytes) < 0x20_0000,
        bytes.len() <= 2 ==> base128(bytes) < 0x4000,
        bytes.len() <= 1 ==> base128(bytes) < 0x80,
        bytes.len() == 0 ==> base128(bytes) == 0,
    decreases bytes.len(),
{
    if bytes.len() > 0 {
        lemma_small_number(bytes.drop_first());
    }
}

/// A byte below 128 is a number of its own. A marked byte goes before the number that follows
/// it, which then counts 128 times as much, as long as that takes no more than eight bytes.
pub proof fn marked_bytes_go_on(first: u8, bytes: Seq<u8>)
    ensures
        first < 128 ==> read_varint(seq![first] + bytes) == Some((first as u64, bytes)),
        first >= 128 && bytes.len() == 0 ==> read_varint(seq![first] + bytes) is None,
        first >= 128 && read_varint(bytes) is Some && bytes.len() - read_varint(bytes)->Some_0.1.len()
            <= 8 ==> {
            let (value, rest) = read_varint(bytes)->Some_0;
            read_varint(seq![first] + bytes) == Some(((first - 128 + 128 * value) as u64, rest))
        },
{
    let longer = seq![first] + bytes;
    assert(longer[0] == first);
    if first < 128 {
        let one = longer.take(1);
        assert(one =~= seq![first]);
        assert(one.drop_first() =~= Seq::<u8>::empty());
        assert(base128(one.drop_first()) == 0);
        assert(base128(one) == first);
        assert(longer.skip(1) =~= bytes);
    } else {
        lemma_varint_end_bounds(bytes, 0);
        lemma_end_moves_on(bytes, first, 0);
        if let Some(end) = varint_end(bytes, 0) {
            let (value, rest) = read_varint(bytes)->Some_0;
            if end <= 8 {
                let front = bytes.take(end as int);
                let all = longer.take((end + 1) as int);
                assert(all.drop_first() =~= front);
                assert(all[0] == first);
                lemma_small_number(front);
                lemma_small_number(all);
                assert(longer.skip((end + 1) as int) =~= bytes.skip(end as int));
                assert(value == base128(front));
                assert(base128(all) == first - 128 + 128 * base128(front));
            }
        }
    }
}

/// A key is the number of a field and how its payload is to be read; a field of the two fixed
/// sizes is passed over by its size, and what follows it is left.
pub proof fn fixed_fields_are_passed_over(tag: u32, payload: Seq<u8>, rest: Seq<u8>, budget: nat)
    requires
        1 <= tag <= MAX_TAG,
        budget > 0,
    ensures
        payload.len() == 8 ==> read_field(varint((8 * tag + 1) as nat) + (payload + rest), budget)
            == Some((FieldModel { tag, value: ValueModel::Other }, rest)),
        payload.len() == 4 ==> read_field(varint((8 * tag + 5) as nat) + (payload + rest), budget)
            == Some((FieldModel { tag, value: ValueModel::Other }, rest)),
        payload.len() < 8 ==> read_field(varint((8 * tag + 1) as nat) + payload, budget) is None,
        payload.len() < 4 ==> read_field(varint((8 * tag + 5) as nat) + payload, budget) is None,
        read_field(varint((8 * tag + 4) as nat) + payload, budget) is None,
        read_field(varint((8 * tag + 6) as nat) + payload, budget) is None,
        read_field(varint((8 * tag + 7) as nat) + payload, budget) is None,
{
    lemma_varint_round_trip((8 * tag + 1) as u64, payload + rest);
    lemma_varint_round_trip((8 * tag + 5) as u64, payload + rest);
    lemma_varint_round_trip((8 * tag + 1) as u64, payload);
    lemma_varint_round_trip((8 * tag + 5) as u64, payload);
    lemma_varint_round_trip((8 * tag + 4) as u64, payload);
    lemma_varint_round_trip((8 * tag + 6) as u64, payload);
    lemma_varint_round_trip((8 * tag + 7) as u64, payload);
    if payload.len() == 8 {
        assert((payload + rest).skip(8) =~= rest);
    }
    if payload.len() == 4 {
        assert((payload + rest).skip(4) =~= rest);
    }
}

proof fn lemma_group_ends(tag: u32, fields: Seq<FieldModel>, rest: Seq<u8>, budget: nat)
    requires
        1 <= tag <= MAX_TAG,
        budget > 1,
        forall|i: int| 0 <= i < fields.len() ==> writable(#[trigger] fields[i]),
    ensures
        skip_group(tag, write_fields(fields) + (varint((8 * tag + 4) as nat) + rest), budget)
            == Some(rest),
    decreases fields.len(),
{
    let close = varint((8 * tag + 4) as nat) + rest;
    let bytes = write_fields(fields) + close;
    if fields.len() == 0 {
        reveal(write_fields);
        assert(bytes =~= close);
        lemma_varint_round_trip((8 * tag + 4) as u64, rest);
    } else {
        let first = fields[0];
        let others = fields.drop_first();
        lemma_first_written(fields);
        let after = write_fields(others) + close;
        assert(bytes =~= write_field(first) + after);
        assert forall|i: int| 0 <= i < others.len() implies writable(#[trigger] others[i]) by {
            assert(others[i] == fields[i + 1]);
        }
        lemma_group_ends(tag, others, rest, budget);
        assert(writable(fields[0]));
        match first.value {
            ValueModel::Varint(value) => {
                assert(bytes =~= varint((first.tag * 8) as nat) + (varint(value as nat) + after));
                lemma_varint_round_trip((first.tag * 8) as u64, varint(value as nat) + after);
                lemma_varint_round_trip(value, after);
                assert(skip_value(0, first.tag, varint(value as nat) + after, (budget - 1) as nat)
                    == Some(after));
            },
            ValueModel::Bytes(payload) => {
                let tail = payload + after;
                assert(bytes =~= varint((first.tag * 8 + 2) as nat) + (varint(payload.len())
                    + tail));
                lemma_varint_round_trip(
                    (first.tag * 8 + 2) as u64,
                    varint(payload.len()) + tail,
                );
                lemma_varint_round_trip(payload.len() as u64, tail);
                assert(tail.skip(payload.len() as int) =~= after);
                assert(skip_value(
                    2,
                    first.tag,
                    varint(payload.len()) + tail,
                    (budget - 1) as nat,
                ) == Some(after));
            },
            ValueModel::Other => {},
        }
    }
}

proof fn lemma_first_written(fields: Seq<FieldModel>)
    requires
        fields.len() > 0,
    ensures
        write_fields(fields) == write_field(fields[0]) + write_fields(fields.drop_first()),
    decreases fields.len(),
{
    reveal(write_fields);
    let others = fields.drop_first();
    if fields.len() == 1 {
        assert(fields.drop_last() =~= Seq::empty());
        assert(write_fields(fields.drop_last()) =~= Seq::<u8>::empty());
        assert(write_fields(others) =~= Seq::<u8>::empty());
        assert(write_fields(fields) =~= write_field(fields[0]) + write_fields(others));
    } else {
        lemma_first_written(fields.drop_last());
        assert(fields.drop_last().drop_first() =~= others.drop_last());
        assert(others.last() == fields.last());
        assert(write_fields(fields) =~= write_field(fields[0]) + write_fields(others));
    }
}

/// A group is passed over from its start to its end, whatever fields it holds.
pub proof fn groups_are_passed_over(
    tag: u32,
    fields: Seq<FieldModel>,
    rest: Seq<u8>,
    budget: nat,
)
    requires
        1 <= tag <= MAX_TAG,
        budget > 1,
        forall|i: int| 0 <= i < fields.len() ==> writable(#[trigger] fields[i]),
    ensures
        read_field(
            varint((8 * tag + 3) as nat) + (write_fields(fields) + (varint((8 * tag + 4) as nat)
                + rest)),
            budget,
        ) == Some((FieldModel { tag, value: ValueModel::Other }, rest)),
{
    let inside = write_fields(fields) + (varint((8 * tag + 4) as nat) + rest);
    lemma_varint_round_trip((8 * tag + 3) as u64, inside);
    lemma_group_ends(tag, fields, rest, budget);
}

/// A key that cannot be one is told by what is wrong with it, and one that can has no such fault.
pub proof fn keys_are_faulted_for_what_is_wrong(tag: u32, wire: u8, key: u64, rest: Seq<u8>)
    requires
        1 <= tag <= MAX_TAG,
        wire < 8,
    ensures
        wire <= 5 ==> read_key(varint((8 * tag + wire) as nat) + rest) == Some((tag, wire, rest)),
        wire > 5 ==> read_key(varint((8 * tag + wire) as nat) + rest) is None && key_fault(
            varint((8 * tag + wire) as nat) + rest,
        ) == (WireFault::InvalidWireType { value: wire as u64 }),
        wire <= 5 ==> read_key(varint(wire as nat) + rest) is None && key_fault(
            varint(wire as nat) + rest,
        ) == WireFault::InvalidTag,
        key > u32::MAX ==> read_key(varint(key as nat) + rest) is None && key_fault(
            varint(key as nat) + rest,
        ) == (WireFault::InvalidKey { key }),
        read_key(Seq::empty()) is None && key_fault(Seq::empty()) == WireFault::InvalidVarint,
{
    lemma_varint_round_trip((8 * tag + wire) as u64, rest);
    lemma_varint_round_trip(wire as u64, rest);
    lemma_varint_round_trip(key, rest);
}

/// What cannot be passed over is told by what is missing.
pub proof fn passed_fields_are_faulted_for_what_is_missing(
    wire: u8,
    tag: u32,
    bytes: Seq<u8>,
    length: u64,
    budget: nat,
)
    requires
        budget > 0,
    ensures
        skip_value(wire, tag, bytes, 0) is None && skip_fault(wire, tag, bytes, 0)
            == WireFault::RecursionLimitReached,
        wire == 1 && bytes.len() < 8 || wire == 5 && bytes.len() < 4 ==> skip_value(
            wire,
            tag,
            bytes,
            budget,
        ) is None && skip_fault(wire, tag, bytes, budget) == WireFault::BufferUnderflow,
        length > bytes.len() ==> skip_fault(2, tag, varint(length as nat) + bytes, budget)
            == WireFault::BufferUnderflow,
        skip_fault(0, tag, Seq::empty(), budget) == WireFault::InvalidVarint,
        skip_fault(2, tag, Seq::empty(), budget) == WireFault::InvalidVarint,
        wire == 4 ==> skip_value(wire, tag, bytes, budget) is None && skip_fault(
            wire,
            tag,
            bytes,
            budget,
        ) == WireFault::UnexpectedEndGroupTag,
{
    lemma_varint_round_trip(length, bytes);
}

} // verus!
