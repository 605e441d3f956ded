//! Messages as folds over their fields.
//!
//! A message starts out blank and takes its fields one by one, in wire order: a
//! scalar replaces what was there, a repeated field appends, and a field that
//! the message does not know changes nothing.
use vstd::prelude::*;
use vstd::slice::slice_subrange;
use vstd::string::StringExecFns;
use vstd::utf8::{decode_utf8, encode_utf8, valid_utf8};

use crate::strings::text_from_utf8;

use super::codec::{
    copy_bytes, encode_fields, field_models, key_fault, lemma_field_round_trip,
    lemma_fields_round_trip, lemma_read_field_rest, lemma_read_field_shrinks, lemma_varint_end_bounds,
    lemma_varint_round_trip, pass_value, put_varint, read_field, read_fields, read_key, read_varint,
    skip_fault, skip_value, take_field, take_key, take_varint, varint, writable, write_field, write_fields, Field,
    FieldModel, FieldValue, ValueModel, WireFault, MAX_TAG,
};

verus! {

/// Why bytes could not be read, and where: the fields that lead to the fault, the
/// innermost first.
#[derive(Clone, Debug)]
pub struct DecodeFault {
    pub kind: WireFault,
    pub places: Vec<&'static str>,
}

/// Mathematical counterpart of [`DecodeFault`].
pub struct FaultModel {
    pub kind: WireFault,
    pub places: Seq<Seq<char>>,
}

impl View for DecodeFault {
    type V = FaultModel;

    open spec fn view(&self) -> FaultModel {
        FaultModel { kind: self.kind, places: self.places@.map_values(|place: &'static str| place@) }
    }
}

pub open spec fn fault_model(fault: Option<DecodeFault>) -> Option<FaultModel> {
    match fault {
        Some(fault) => Some(fault@),
        None => None,
    }
}

/// Places, each with what sets it apart from what follows.
pub open spec fn place_text(places: Seq<Seq<char>>) -> Seq<char>
    decreases places.len(),
{
    if places.len() == 0 {
        Seq::empty()
    } else {
        place_text(places.drop_last()) + places.last() + ": "@
    }
}

impl FaultModel {
    /// A sentence for people.
    pub open spec fn text(self) -> Seq<char> {
        "failed to decode Protobuf message: "@ + place_text(self.places) + self.kind.text()
    }
}

impl DecodeFault {
    /// A sentence for people.
    pub fn message(&self) -> (text: String)
        ensures
            text@ == self@.text(),
    {
        let ghost all = self@.places;
        let mut text = "failed to decode Protobuf message: ".to_owned();
        let ghost front = text@;
        assert(text@ =~= front + place_text(all.take(0)));
        for at in 0..self.places.len()
            invariant
                all == self@.places,
                text@ == front + place_text(all.take(at as int)),
        {
            text.append(self.places[at]);
            text.append(": ");
            proof {
                assert(all.take(at + 1).drop_last() =~= all.take(at as int));
                assert(all.take(at + 1).last() == self.places@[at as int]@);
                assert(text@ =~= front + place_text(all.take(at + 1)));
            }
        }
        assert(all.take(all.len() as int) =~= all);
        text.append(self.kind.description().as_str());
        text
    }
}

fn unplaced(kind: WireFault) -> (fault: DecodeFault)
    ensures
        fault@ == (FaultModel { kind, places: Seq::empty() }),
{
    let fault = DecodeFault { kind, places: Vec::new() };
    assert(fault@.places =~= Seq::<Seq<char>>::empty());
    fault
}

fn place(fault: DecodeFault, at: &'static str) -> (placed: DecodeFault)
    ensures
        placed@ == (FaultModel { kind: fault.kind, places: fault@.places.push(at@) }),
{
    let ghost before = fault@.places;
    let mut placed = fault;
    placed.places.push(at);
    assert(placed@.places =~= before.push(at@));
    placed
}

/// What a protobuf message type means.
pub trait WireModel: Sized {
    /// What a value says, in mathematical terms.
    type Model;

    spec fn model(&self) -> Self::Model;

    /// The message that no bytes stand for.
    spec fn blank_model() -> Self::Model;

    /// The message after one more field, or `None` where the field does not fit
    /// what the message declares under its number.
    spec fn merged(model: Self::Model, field: FieldModel, budget: nat) -> Option<Self::Model>;

    /// What is wrong with the value at the front of `bytes`, if it comes under that
    /// number and wire type.
    spec fn field_fault(tag: u32, wire: u8, bytes: Seq<u8>, budget: nat) -> Option<FaultModel>;

    /// The fields that a message is written as.
    spec fn fields_model(model: Self::Model) -> Seq<FieldModel>;

    /// How many levels of messages lie below this one.
    spec fn height() -> nat;
}

/// A type that travels as a protobuf message.
pub trait WireMessage: WireModel {
    fn blank() -> (message: Self)
        ensures
            message.model() == Self::blank_model(),
    ;

    fn merge(&mut self, field: Field, budget: u32) -> (merged: Option<()>)
        ensures
            match merged {
                Some(()) => Self::merged(old(self).model(), field@, budget as nat) == Some(
                    final(self).model(),
                ),
                None => Self::merged(old(self).model(), field@, budget as nat) is None,
            },
    ;

    fn find_fault(tag: u32, wire: u8, bytes: &[u8], budget: u32) -> (fault: Option<DecodeFault>)
        ensures
            fault_model(fault) == Self::field_fault(tag, wire, bytes@, budget as nat),
    ;

    fn fields(&self) -> (fields: Vec<Field>)
        ensures
            field_models(fields@) == Self::fields_model(self.model()),
            tags_fit(fields@),
    ;

    /// The fields that a message is written as build it again from blank.
    proof fn fields_rebuild(model: Self::Model, budget: nat)
        requires
            budget >= Self::height(),
            encoded::<Self>(model).len() <= u64::MAX,
        ensures
            fold_fields::<Self>(Self::blank_model(), Self::fields_model(model), budget) == Some(
                model,
            ),
            forall|i: int|
                0 <= i < Self::fields_model(model).len() ==> writable(
                    #[trigger] Self::fields_model(model)[i],
                ),
    ;
}

/// `start` after the given fields, in order.
#[verifier::opaque]
pub open spec fn fold_fields<M: WireModel>(
    start: M::Model,
    fields: Seq<FieldModel>,
    budget: nat,
) -> Option<M::Model>
    decreases fields.len(),
{
    if fields.len() == 0 {
        Some(start)
    } else {
        match fold_fields::<M>(start, fields.drop_last(), budget) {
            None => None,
            Some(model) => M::merged(model, fields.last(), budget),
        }
    }
}

/// `start` after the fields that `bytes` hold, or `None` where they hold none
/// that fit.
pub open spec fn decoded_onto<M: WireModel>(
    start: M::Model,
    bytes: Seq<u8>,
    budget: nat,
) -> Option<M::Model> {
    match read_fields(bytes, budget) {
        None => None,
        Some(fields) => fold_fields::<M>(start, fields, budget),
    }
}

/// The message that `bytes` stand for, or `None` where they stand for none.
pub open spec fn decoded<M: WireModel>(bytes: Seq<u8>, budget: nat) -> Option<M::Model> {
    decoded_onto::<M>(M::blank_model(), bytes, budget)
}

/// The bytes that a message is written as.
pub open spec fn encoded<M: WireModel>(model: M::Model) -> Seq<u8> {
    write_fields(M::fields_model(model))
}

/// A message inside another: one level of the budget is spent on it.
pub open spec fn nested_onto<M: WireModel>(
    start: M::Model,
    value: ValueModel,
    budget: nat,
) -> Option<M::Model> {
    match value {
        ValueModel::Bytes(bytes) => if budget == 0 {
            None
        } else {
            decoded_onto::<M>(start, bytes, (budget - 1) as nat)
        },
        _ => None,
    }
}

/// One item of a repeated message.
pub open spec fn nested<M: WireModel>(value: ValueModel, budget: nat) -> Option<M::Model> {
    nested_onto::<M>(M::blank_model(), value, budget)
}

pub open spec fn tags_fit(fields: Seq<Field>) -> bool {
    forall|i: int| 0 <= i < fields.len() ==> (#[trigger] fields[i]).tag <= MAX_TAG
}

// ---------------------------------------------------------------------------
// Faults
// ---------------------------------------------------------------------------
//
// A value is read by what its message declares, from all of the bytes that are left:
// the length of the message around it is only looked at when the value is done.

/// What is wrong with a number.
pub open spec fn number_fault(wire: u8, bytes: Seq<u8>) -> Option<WireFault> {
    if wire != 0 {
        Some(WireFault::UnexpectedWireType { actual: wire, expected: 0 })
    } else if read_varint(bytes) is None {
        Some(WireFault::InvalidVarint)
    } else {
        None
    }
}

/// What is wrong with a text.
pub open spec fn text_fault(wire: u8, bytes: Seq<u8>) -> Option<WireFault> {
    if wire != 2 {
        Some(WireFault::UnexpectedWireType { actual: wire, expected: 2 })
    } else {
        match read_varint(bytes) {
            None => Some(WireFault::InvalidVarint),
            Some((length, rest)) => if length > rest.len() {
                Some(WireFault::BufferUnderflow)
            } else if !valid_utf8(rest.take(length as int)) {
                Some(WireFault::InvalidString)
            } else {
                None
            },
        }
    }
}

/// What is wrong with numbers that are to end where `limit` bytes are left.
pub open spec fn run_fault(bytes: Seq<u8>, limit: nat) -> Option<WireFault>
    decreases bytes.len(),
{
    if bytes.len() > limit {
        match read_varint(bytes) {
            Some((number, rest)) if rest.len() < bytes.len() => run_fault(rest, limit),
            _ => Some(WireFault::InvalidVarint),
        }
    } else if bytes.len() < limit {
        Some(WireFault::DelimitedLengthExceeded)
    } else {
        None
    }
}

/// What is wrong with a repeated number, packed or not.
pub open spec fn packed_fault(wire: u8, bytes: Seq<u8>) -> Option<WireFault> {
    if wire != 2 {
        number_fault(wire, bytes)
    } else {
        match read_varint(bytes) {
            None => Some(WireFault::InvalidVarint),
            Some((length, rest)) => if length > rest.len() {
                Some(WireFault::BufferUnderflow)
            } else {
                run_fault(rest, (rest.len() - length) as nat)
            },
        }
    }
}

/// A fault in a field.
pub open spec fn placed(fault: Option<WireFault>, place: Seq<char>) -> Option<FaultModel> {
    match fault {
        Some(kind) => Some(FaultModel { kind, places: seq![place] }),
        None => None,
    }
}

/// What is wrong with a value that the message does not know.
pub open spec fn unknown_fault(wire: u8, tag: u32, bytes: Seq<u8>, budget: nat) -> Option<
    FaultModel,
> {
    if skip_value(wire, tag, bytes, budget) is None {
        Some(FaultModel { kind: skip_fault(wire, tag, bytes, budget), places: Seq::empty() })
    } else {
        None
    }
}

/// What is wrong with a message inside another.
pub open spec fn nested_fault<M: WireModel>(
    wire: u8,
    bytes: Seq<u8>,
    budget: nat,
    place: Seq<char>,
) -> Option<FaultModel> {
    if wire != 2 {
        placed(Some(WireFault::UnexpectedWireType { actual: wire, expected: 2 }), place)
    } else if budget == 0 {
        placed(Some(WireFault::RecursionLimitReached), place)
    } else {
        match read_varint(bytes) {
            None => placed(Some(WireFault::InvalidVarint), place),
            Some((length, rest)) => if length > rest.len() {
                placed(Some(WireFault::BufferUnderflow), place)
            } else {
                match message_fault::<M>(
                    M::blank_model(),
                    rest,
                    (rest.len() - length) as nat,
                    (budget - 1) as nat,
                ) {
                    Some(inner) => Some(
                        FaultModel { kind: inner.kind, places: inner.places.push(place) },
                    ),
                    None => None,
                }
            },
        }
    }
}

/// What is wrong with the field at the front of `bytes`, which a message cannot take. One
/// that is well formed by itself runs past the end of the message.
pub open spec fn front_fault<M: WireModel>(bytes: Seq<u8>, budget: nat) -> FaultModel {
    match read_key(bytes) {
        None => FaultModel { kind: key_fault(bytes), places: Seq::empty() },
        Some((tag, wire, rest)) => match M::field_fault(tag, wire, rest, budget) {
            Some(fault) => fault,
            None => FaultModel {
                kind: WireFault::DelimitedLengthExceeded,
                places: Seq::empty(),
            },
        },
    }
}

/// What is wrong with a message that is to end where `limit` bytes are left.
pub open spec fn message_fault<M: WireModel>(
    start: M::Model,
    bytes: Seq<u8>,
    limit: nat,
    budget: nat,
) -> Option<FaultModel>
    decreases bytes.len(),
{
    if bytes.len() <= limit {
        None
    } else {
        let own = bytes.take(bytes.len() - limit);
        match read_field(own, budget) {
            Some((field, rest)) if rest.len() < own.len() => match M::merged(start, field, budget) {
                Some(next) => message_fault::<M>(
                    next,
                    bytes.skip(own.len() - rest.len()),
                    limit,
                    budget,
                ),
                None => Some(front_fault::<M>(bytes, budget)),
            },
            _ => Some(front_fault::<M>(bytes, budget)),
        }
    }
}

/// What is wrong with bytes that stand for no message.
pub open spec fn decode_fault<M: WireModel>(bytes: Seq<u8>, budget: nat) -> Option<FaultModel> {
    message_fault::<M>(M::blank_model(), bytes, 0, budget)
}

pub fn find_number_fault(wire: u8, bytes: &[u8], at: &'static str) -> (fault: Option<DecodeFault>)
    ensures
        fault_model(fault) == placed(number_fault(wire, bytes@), at@),
{
    if wire != 0 {
        return Some(placed_at(WireFault::UnexpectedWireType { actual: wire, expected: 0 }, at));
    }
    match take_varint(bytes) {
        Ok(_) => None,
        Err(fault) => Some(placed_at(fault, at)),
    }
}

fn placed_at(kind: WireFault, at: &'static str) -> (fault: DecodeFault)
    ensures
        fault@ == (FaultModel { kind, places: seq![at@] }),
{
    let fault = place(unplaced(kind), at);
    assert(fault@.places =~= seq![at@]);
    fault
}

pub fn find_text_fault(wire: u8, bytes: &[u8], at: &'static str) -> (fault: Option<DecodeFault>)
    ensures
        fault_model(fault) == placed(text_fault(wire, bytes@), at@),
{
    if wire != 2 {
        return Some(placed_at(WireFault::UnexpectedWireType { actual: wire, expected: 2 }, at));
    }
    match take_varint(bytes) {
        Ok((length, rest)) => {
            if length > rest.len() as u64 {
                return Some(placed_at(WireFault::BufferUnderflow, at));
            }
            let front = slice_subrange(rest, 0, length as usize);
            assert(front@ =~= rest@.take(length as int));
            match text_from_utf8(copy_bytes(front)) {
                Ok(_) => None,
                Err(_) => Some(placed_at(WireFault::InvalidString, at)),
            }
        },
        Err(fault) => Some(placed_at(fault, at)),
    }
}

pub fn find_packed_fault(wire: u8, bytes: &[u8], at: &'static str) -> (fault: Option<DecodeFault>)
    ensures
        fault_model(fault) == placed(packed_fault(wire, bytes@), at@),
{
    if wire != 2 {
        return find_number_fault(wire, bytes, at);
    }
    let (length, rest) = match take_varint(bytes) {
        Ok(taken) => taken,
        Err(fault) => {
            return Some(placed_at(fault, at));
        },
    };
    if length > rest.len() as u64 {
        return Some(placed_at(WireFault::BufferUnderflow, at));
    }
    let limit: usize = rest.len() - length as usize;
    let ghost start = rest@;
    let mut left: &[u8] = rest;
    while left.len() > limit
        invariant
            run_fault(start, limit as nat) == run_fault(left@, limit as nat),
            packed_fault(wire, bytes@) == run_fault(start, limit as nat),
        decreases left@.len(),
    {
        proof {
            lemma_varint_end_bounds(left@, 0);
        }
        match take_varint(left) {
            Ok((_, next)) => {
                left = next;
            },
            Err(fault) => {
                return Some(placed_at(fault, at));
            },
        }
    }
    if left.len() < limit {
        return Some(placed_at(WireFault::DelimitedLengthExceeded, at));
    }
    None
}

pub fn find_unknown_fault(wire: u8, tag: u32, bytes: &[u8], budget: u32) -> (fault: Option<
    DecodeFault,
>)
    ensures
        fault_model(fault) == unknown_fault(wire, tag, bytes@, budget as nat),
{
    match pass_value(wire, tag, bytes, budget) {
        Ok(_) => None,
        Err(fault) => Some(unplaced(fault)),
    }
}

pub fn find_nested_fault<M: WireMessage>(
    wire: u8,
    bytes: &[u8],
    budget: u32,
    at: &'static str,
) -> (fault: Option<DecodeFault>)
    ensures
        fault_model(fault) == nested_fault::<M>(wire, bytes@, budget as nat, at@),
{
    if wire != 2 {
        return Some(placed_at(WireFault::UnexpectedWireType { actual: wire, expected: 2 }, at));
    }
    if budget == 0 {
        return Some(placed_at(WireFault::RecursionLimitReached, at));
    }
    let (length, rest) = match take_varint(bytes) {
        Ok(taken) => taken,
        Err(fault) => {
            return Some(placed_at(fault, at));
        },
    };
    if length > rest.len() as u64 {
        return Some(placed_at(WireFault::BufferUnderflow, at));
    }
    let mut message = M::blank();
    match merge_bytes::<M>(&mut message, rest, rest.len() - length as usize, budget - 1) {
        Ok(()) => None,
        Err(inner) => Some(place(inner, at)),
    }
}

fn find_front_fault<M: WireMessage>(bytes: &[u8], budget: u32) -> (fault: DecodeFault)
    ensures
        fault@ == front_fault::<M>(bytes@, budget as nat),
{
    match take_key(bytes) {
        Ok((tag, wire, rest)) => match M::find_fault(tag, wire, rest, budget) {
            Some(fault) => fault,
            None => unplaced(WireFault::DelimitedLengthExceeded),
        },
        Err(fault) => unplaced(fault),
    }
}

/// Adds the fields that `bytes` hold, up to where `limit` of them are left, to a message.
/// What the message holds after a fault is of no use.
pub fn merge_bytes<M: WireMessage>(message: &mut M, bytes: &[u8], limit: usize, budget: u32) -> (
merged: Result<(), DecodeFault>)
    requires
        limit <= bytes@.len(),
    ensures
        ({
            let own = bytes@.take(bytes@.len() - limit);
            let expected = decoded_onto::<M>(old(message).model(), own, budget as nat);
            let fault = message_fault::<M>(
                old(message).model(),
                bytes@,
                limit as nat,
                budget as nat,
            );
            match merged {
                Ok(()) => expected == Some(final(message).model()) && fault is None,
                Err(found) => expected is None && fault == Some(found@),
            }
        }),
{
    let ghost all = bytes@.take(bytes@.len() - limit);
    let mut left: &[u8] = bytes;
    while left.len() > limit
        invariant
            limit <= left@.len(),
            all == bytes@.take(bytes@.len() - limit),
            decoded_onto::<M>(old(message).model(), all, budget as nat) == decoded_onto::<M>(
                message.model(),
                left@.take(left@.len() - limit),
                budget as nat,
            ),
            message_fault::<M>(old(message).model(), bytes@, limit as nat, budget as nat)
                == message_fault::<M>(message.model(), left@, limit as nat, budget as nat),
        decreases left@.len(),
    {
        let ghost before = message.model();
        let own = slice_subrange(left, 0, left.len() - limit);
        assert(own@ =~= left@.take(left@.len() - limit));
        proof {
            lemma_read_field_shrinks(own@, budget as nat);
        }
        match take_field(own, budget) {
            Some((field, rest)) => {
                proof {
                    lemma_decoded_step::<M>(before, own@, budget as nat);
                }
                match message.merge(field, budget) {
                    Some(()) => {
                        let used: usize = own.len() - rest.len();
                        let next = slice_subrange(left, used, left.len());
                        proof {
                            assert(next@ =~= left@.skip(used as int));
                            lemma_read_field_rest(own@, budget as nat);
                            assert(next@.take(next@.len() - limit) =~= rest@);
                        }
                        left = next;
                    },
                    None => {
                        return Err(find_front_fault::<M>(left, budget));
                    },
                }
            },
            None => {
                return Err(find_front_fault::<M>(left, budget));
            },
        }
    }
    proof {
        assert(left@.take(left@.len() - limit) =~= Seq::<u8>::empty());
        lemma_fold_short::<M>(message.model(), Seq::empty(), budget as nat);
    }
    Ok(())
}

/// A message takes the first field of its bytes before the others.
proof fn lemma_decoded_step<M: WireModel>(start: M::Model, bytes: Seq<u8>, budget: nat)
    requires
        bytes.len() > 0,
        read_field(bytes, budget) is Some,
    ensures
        ({
            let (field, rest) = read_field(bytes, budget)->Some_0;
            decoded_onto::<M>(start, bytes, budget) == match M::merged(start, field, budget) {
                None => None::<M::Model>,
                Some(next) => decoded_onto::<M>(next, rest, budget),
            }
        }),
{
    let (field, rest) = read_field(bytes, budget)->Some_0;
    lemma_read_field_shrinks(bytes, budget);
    match read_fields(rest, budget) {
        None => {},
        Some(more) => {
            lemma_fold_concat::<M>(start, seq![field], more, budget);
            lemma_fold_short::<M>(start, seq![field], budget);
        },
    }
}

/// Reads a message off all of `bytes`.
pub fn decode_message<M: WireMessage>(bytes: &[u8], budget: u32) -> (read: Result<M, DecodeFault>)
    ensures
        match read {
            Ok(message) => decoded::<M>(bytes@, budget as nat) == Some(message.model())
                && decode_fault::<M>(bytes@, budget as nat) is None,
            Err(fault) => decoded::<M>(bytes@, budget as nat) is None && decode_fault::<M>(
                bytes@,
                budget as nat,
            ) == Some(fault@),
        },
{
    let mut message = M::blank();
    assert(bytes@.take(bytes@.len() as int) =~= bytes@);
    match merge_bytes::<M>(&mut message, bytes, 0, budget) {
        Ok(()) => Ok(message),
        Err(fault) => Err(fault),
    }
}

/// Writes a message.
pub fn encode_message<M: WireMessage>(message: &M) -> (bytes: Vec<u8>)
    ensures
        bytes@ == encoded::<M>(message.model()),
{
    let fields = message.fields();
    encode_fields(&fields)
}

/// Folding two runs of fields is folding the first, then the second.
pub proof fn lemma_fold_concat<M: WireModel>(
    start: M::Model,
    first: Seq<FieldModel>,
    second: Seq<FieldModel>,
    budget: nat,
)
    ensures
        fold_fields::<M>(start, first + second, budget) == match fold_fields::<M>(
            start,
            first,
            budget,
        ) {
            None => None::<M::Model>,
            Some(middle) => fold_fields::<M>(middle, second, budget),
        },
    decreases second.len(),
{
    reveal(fold_fields);
    if second.len() == 0 {
        assert(first + second =~= first);
    } else {
        assert((first + second).drop_last() =~= first + second.drop_last());
        assert((first + second).last() == second.last());
        lemma_fold_concat::<M>(start, first, second.drop_last(), budget);
    }
}

/// Folding at most one field.
pub proof fn lemma_fold_short<M: WireModel>(
    start: M::Model,
    fields: Seq<FieldModel>,
    budget: nat,
)
    requires
        fields.len() <= 1,
    ensures
        fields.len() == 0 ==> fold_fields::<M>(start, fields, budget) == Some(start),
        fields.len() == 1 ==> fold_fields::<M>(start, fields, budget) == M::merged(
            start,
            fields[0],
            budget,
        ),
{
    reveal(fold_fields);
    if fields.len() == 1 {
        assert(fields.drop_last() =~= Seq::<FieldModel>::empty());
        assert(fold_fields::<M>(start, fields.drop_last(), budget) == Some(start));
    }
}

/// One more run of fields brings a message one step further.
pub proof fn lemma_fold_grow<M: WireModel>(
    start: M::Model,
    done: Seq<FieldModel>,
    middle: M::Model,
    more: Seq<FieldModel>,
    end: M::Model,
    budget: nat,
)
    requires
        declared(done),
        declared(more),
        fold_fields::<M>(start, done, budget) == Some(middle),
        fold_fields::<M>(middle, more, budget) == Some(end),
    ensures
        declared(done + more),
        fold_fields::<M>(start, done + more, budget) == Some(end),
{
    reveal(declared);
    lemma_fold_concat::<M>(start, done, more, budget);
}

/// Folding a repeated field collects its items in order.
pub proof fn lemma_fold_repeated<M: WireModel, T>(
    fields: Seq<FieldModel>,
    items: Seq<T>,
    with: spec_fn(Seq<T>) -> M::Model,
    budget: nat,
)
    requires
        fields.len() == items.len(),
        forall|i: int|
            0 <= i < items.len() ==> M::merged(with(items.take(i)), #[trigger] fields[i], budget)
                == Some(with(items.take(i + 1))),
    ensures
        fold_fields::<M>(with(Seq::empty()), fields, budget) == Some(with(items)),
    decreases items.len(),
{
    reveal(fold_fields);
    if items.len() == 0 {
        assert(items =~= Seq::empty());
    } else {
        let fields_before = fields.drop_last();
        let items_before = items.drop_last();
        assert forall|i: int| 0 <= i < items_before.len() implies M::merged(
            with(items_before.take(i)),
            #[trigger] fields_before[i],
            budget,
        ) == Some(with(items_before.take(i + 1))) by {
            assert(items_before.take(i) =~= items.take(i));
            assert(items_before.take(i + 1) =~= items.take(i + 1));
            assert(fields_before[i] == fields[i]);
        }
        lemma_fold_repeated::<M, T>(fields_before, items_before, with, budget);
        let last = items.len() - 1;
        assert(items.take(last) =~= items_before);
        assert(items.take(last + 1) =~= items);
        assert(fields[last] == fields.last());
    }
}

/// No payload is longer than the bytes that it is written in.
pub proof fn lemma_payload_within(fields: Seq<FieldModel>, at: int)
    requires
        0 <= at < fields.len(),
    ensures
        match fields[at].value {
            ValueModel::Bytes(bytes) => bytes.len() <= write_fields(fields).len(),
            _ => true,
        },
    decreases fields.len(),
{
    reveal(write_fields);
    if at < fields.len() - 1 {
        lemma_payload_within(fields.drop_last(), at);
    }
}

/// Two runs of fields take as many bytes as each by itself.
pub proof fn lemma_run_sizes(first: Seq<FieldModel>, second: Seq<FieldModel>)
    ensures
        write_fields(first + second).len() == write_fields(first).len() + write_fields(
            second,
        ).len(),
    decreases second.len(),
{
    reveal(write_fields);
    if second.len() == 0 {
        assert(first + second =~= first);
    } else {
        assert((first + second).drop_last() =~= first + second.drop_last());
        assert((first + second).last() == second.last());
        lemma_run_sizes(first, second.drop_last());
    }
}

/// Fields that some message declares: numbered within range, and neither a
/// group nor of fixed width.
#[verifier::opaque]
pub open spec fn declared(fields: Seq<FieldModel>) -> bool {
    forall|i: int|
        0 <= i < fields.len() ==> 1 <= (#[trigger] fields[i]).tag <= MAX_TAG && !(fields[i].value
            is Other)
}

pub proof fn lemma_declared_writable(fields: Seq<FieldModel>)
    requires
        declared(fields),
        write_fields(fields).len() <= u64::MAX,
    ensures
        forall|i: int| 0 <= i < fields.len() ==> writable(#[trigger] fields[i]),
{
    reveal(declared);
    assert forall|i: int| 0 <= i < fields.len() implies writable(#[trigger] fields[i]) by {
        lemma_payload_within(fields, i);
    }
}

/// Text survives its encoding.
pub proof fn lemma_text(text: Seq<char>)
    ensures
        text_of(ValueModel::Bytes(encode_utf8(text))) == Some(text),
        text.len() == 0 ==> text == Seq::<char>::empty(),
{
    vstd::utf8::encode_utf8_valid_utf8(text);
    vstd::utf8::encode_utf8_decode_utf8(text);
    if text.len() == 0 {
        assert(text =~= Seq::<char>::empty());
    }
}

/// A message that was written is read back.
pub proof fn lemma_message_round_trip<M: WireMessage>(model: M::Model, budget: nat)
    requires
        budget >= M::height(),
        encoded::<M>(model).len() <= u64::MAX,
    ensures
        decoded::<M>(encoded::<M>(model), budget) == Some(model),
{
    M::fields_rebuild(model, budget);
    lemma_fields_round_trip(M::fields_model(model), budget);
}

// ---------------------------------------------------------------------------
// The kinds of field
// ---------------------------------------------------------------------------

pub open spec fn text_of(value: ValueModel) -> Option<Seq<char>> {
    match value {
        ValueModel::Bytes(bytes) => if valid_utf8(bytes) { Some(decode_utf8(bytes)) } else { None },
        _ => None,
    }
}

pub open spec fn number_of(value: ValueModel) -> Option<u64> {
    match value {
        ValueModel::Varint(number) => Some(number),
        _ => None,
    }
}

/// A number kept to its low 32 bits, as a 32-bit field keeps it.
pub open spec fn low32(number: u64) -> u32 {
    (number % 0x1_0000_0000) as u32
}

pub open spec fn text_field(tag: u32, text: Seq<char>) -> FieldModel {
    FieldModel { tag, value: ValueModel::Bytes(encode_utf8(text)) }
}

pub open spec fn number_field(tag: u32, number: u64) -> FieldModel {
    FieldModel { tag, value: ValueModel::Varint(number) }
}

pub open spec fn message_field<M: WireModel>(tag: u32, model: M::Model) -> FieldModel {
    FieldModel { tag, value: ValueModel::Bytes(encoded::<M>(model)) }
}

/// A string, left out where it is empty.
pub open spec fn text_piece(tag: u32, text: Seq<char>) -> Seq<FieldModel> {
    if text.len() == 0 { Seq::empty() } else { seq![text_field(tag, text)] }
}

pub open spec fn optional_text_piece(tag: u32, text: Option<Seq<char>>) -> Seq<FieldModel> {
    match text {
        None => Seq::empty(),
        Some(text) => seq![text_field(tag, text)],
    }
}

pub open spec fn texts_piece(tag: u32, texts: Seq<Seq<char>>) -> Seq<FieldModel> {
    Seq::new(texts.len(), |i: int| text_field(tag, texts[i]))
}

/// A number, left out where it is zero.
pub open spec fn number_piece(tag: u32, number: u64) -> Seq<FieldModel> {
    if number == 0 { Seq::empty() } else { seq![number_field(tag, number)] }
}

pub open spec fn optional_number_piece(tag: u32, number: Option<u32>) -> Seq<FieldModel> {
    match number {
        None => Seq::empty(),
        Some(number) => seq![number_field(tag, number as u64)],
    }
}

/// Numbers one after the other.
pub open spec fn varints(numbers: Seq<u64>) -> Seq<u8>
    decreases numbers.len(),
{
    if numbers.len() == 0 {
        Seq::empty()
    } else {
        varint(numbers[0] as nat) + varints(numbers.drop_first())
    }
}

/// The numbers that fill `bytes` from end to end.
pub open spec fn read_varints(bytes: Seq<u8>) -> Option<Seq<u64>>
    decreases bytes.len(),
{
    if bytes.len() == 0 {
        Some(Seq::empty())
    } else {
        match read_varint(bytes) {
            None => None,
            // Every number takes at least one byte.
            Some((number, rest)) => if rest.len() >= bytes.len() {
                None
            } else {
                match read_varints(rest) {
                    None => None,
                    Some(more) => Some(seq![number] + more),
                }
            },
        }
    }
}

/// The numbers of a repeated field: one by itself, or many packed together.
pub open spec fn numbers_of(value: ValueModel) -> Option<Seq<u64>> {
    match value {
        ValueModel::Varint(number) => Some(seq![number]),
        ValueModel::Bytes(bytes) => read_varints(bytes),
        ValueModel::Other => None,
    }
}

/// Repeated numbers, packed together and left out where there are none.
pub open spec fn packed_piece(tag: u32, numbers: Seq<u64>) -> Seq<FieldModel> {
    if numbers.len() == 0 {
        Seq::empty()
    } else {
        seq![FieldModel { tag, value: ValueModel::Bytes(varints(numbers)) }]
    }
}

/// Packed numbers are read back.
pub proof fn lemma_varints_round_trip(numbers: Seq<u64>)
    ensures
        read_varints(varints(numbers)) == Some(numbers),
    decreases numbers.len(),
{
    if numbers.len() == 0 {
        assert(numbers =~= Seq::<u64>::empty());
    } else {
        let rest = varints(numbers.drop_first());
        lemma_varint_round_trip(numbers[0], rest);
        lemma_varints_round_trip(numbers.drop_first());
        assert(varint(numbers[0] as nat).len() >= 1);
        assert(seq![numbers[0]] + numbers.drop_first() =~= numbers);
    }
}

/// A signed number as it travels: in two's complement.
pub open spec fn to_wire(value: i64) -> u64 {
    if value < 0 { (value + 0x1_0000_0000_0000_0000) as u64 } else { value as u64 }
}

pub open spec fn from_wire(value: u64) -> i64 {
    if value >= 0x8000_0000_0000_0000 {
        (value - 0x1_0000_0000_0000_0000) as i64
    } else {
        value as i64
    }
}

pub open spec fn signed_models(numbers: Seq<i64>) -> Seq<u64> {
    numbers.map_values(|number: i64| to_wire(number))
}

pub open spec fn unsigned_models(numbers: Seq<u64>) -> Seq<i64> {
    numbers.map_values(|number: u64| from_wire(number))
}

pub proof fn lemma_signed_round_trip(numbers: Seq<i64>)
    ensures
        unsigned_models(signed_models(numbers)) == numbers,
{
    assert(unsigned_models(signed_models(numbers)) =~= numbers);
}

pub fn signed_to_wire(value: i64) -> (wire: u64)
    ensures
        wire == to_wire(value),
{
    if value < 0 {
        u64::MAX - ((-(value + 1)) as u64)
    } else {
        value as u64
    }
}

pub fn signed_from_wire(wire: u64) -> (value: i64)
    ensures
        value == from_wire(wire),
{
    if wire >= 0x8000_0000_0000_0000 {
        -((u64::MAX - wire) as i64) - 1
    } else {
        wire as i64
    }
}

/// A flag, left out where it is not set.
pub open spec fn flag_piece(tag: u32, flag: bool) -> Seq<FieldModel> {
    number_piece(tag, if flag { 1u64 } else { 0u64 })
}

pub open spec fn optional_message_piece<M: WireModel>(
    tag: u32,
    model: Option<M::Model>,
) -> Seq<FieldModel> {
    match model {
        None => Seq::empty(),
        Some(model) => message_piece::<M>(tag, model),
    }
}

pub open spec fn optional_model<M: WireModel>(message: Option<M>) -> Option<M::Model> {
    match message {
        None => None,
        Some(message) => Some(message.model()),
    }
}

/// A message that may be missing, to be added to.
pub open spec fn or_blank<M: WireModel>(model: Option<M::Model>) -> M::Model {
    match model {
        None => M::blank_model(),
        Some(model) => model,
    }
}

pub open spec fn message_piece<M: WireModel>(tag: u32, model: M::Model) -> Seq<FieldModel> {
    seq![message_field::<M>(tag, model)]
}

pub open spec fn messages_piece<M: WireModel>(
    tag: u32,
    models: Seq<M::Model>,
) -> Seq<FieldModel> {
    Seq::new(models.len(), |i: int| message_field::<M>(tag, models[i]))
}

pub open spec fn optional_text(text: Option<String>) -> Option<Seq<char>> {
    match text {
        None => None,
        Some(text) => Some(text@),
    }
}

pub open spec fn text_models(texts: Seq<String>) -> Seq<Seq<char>> {
    texts.map_values(|text: String| text@)
}

pub open spec fn message_models<M: WireModel>(messages: Seq<M>) -> Seq<M::Model> {
    messages.map_values(|message: M| message.model())
}

pub fn take_text(value: FieldValue) -> (text: Option<String>)
    ensures
        match text {
            Some(text) => text_of(value@) == Some(text@),
            None => text_of(value@) is None,
        },
{
    match value {
        FieldValue::Bytes(bytes) => match text_from_utf8(bytes) {
            Ok(text) => Some(text),
            Err(_) => None,
        },
        _ => None,
    }
}

pub fn take_number(value: FieldValue) -> (number: Option<u64>)
    ensures
        match number {
            Some(number) => number_of(value@) == Some(number),
            None => number_of(value@) is None,
        },
{
    match value {
        FieldValue::Varint(number) => Some(number),
        _ => None,
    }
}

// ---------------------------------------------------------------------------
// Fields out of values
// ---------------------------------------------------------------------------

pub fn put_text(fields: &mut Vec<Field>, tag: u32, text: &String)
    requires
        tags_fit(old(fields)@),
        tag <= MAX_TAG,
    ensures
        tags_fit(final(fields)@),
        field_models(final(fields)@) == field_models(old(fields)@) + text_piece(tag, text@),
{
    let bytes = text.as_str().as_bytes();
    proof {
        if text@.len() == 0 {
            assert(encode_utf8(text@).len() == 0);
        } else {
            lemma_encoding_nonempty(text@);
        }
    }
    if bytes.len() > 0 {
        push_bytes(fields, tag, copy_bytes(bytes));
    } else {
        assert(field_models(fields@) + text_piece(tag, text@) =~= field_models(fields@));
    }
}

proof fn lemma_encoding_nonempty(text: Seq<char>)
    requires
        text.len() > 0,
    ensures
        encode_utf8(text).len() > 0,
{
    vstd::utf8::encode_utf8_first_scalar(text);
}

fn push_bytes(fields: &mut Vec<Field>, tag: u32, bytes: Vec<u8>)
    requires
        tags_fit(old(fields)@),
        tag <= MAX_TAG,
    ensures
        tags_fit(final(fields)@),
        field_models(final(fields)@) == field_models(old(fields)@) + seq![
            FieldModel { tag, value: ValueModel::Bytes(bytes@) },
        ],
{
    fields.push(Field { tag, value: FieldValue::Bytes(bytes) });
    assert(field_models(fields@) =~= field_models(old(fields)@) + seq![
        FieldModel { tag, value: ValueModel::Bytes(bytes@) },
    ]);
}

pub fn put_optional_text(fields: &mut Vec<Field>, tag: u32, text: &Option<String>)
    requires
        tags_fit(old(fields)@),
        tag <= MAX_TAG,
    ensures
        tags_fit(final(fields)@),
        field_models(final(fields)@) == field_models(old(fields)@) + optional_text_piece(
            tag,
            optional_text(*text),
        ),
{
    match text {
        None => {
            assert(field_models(fields@) + Seq::<FieldModel>::empty() =~= field_models(fields@));
        },
        Some(text) => push_bytes(fields, tag, copy_bytes(text.as_str().as_bytes())),
    }
}

pub fn put_texts(fields: &mut Vec<Field>, tag: u32, texts: &Vec<String>)
    requires
        tags_fit(old(fields)@),
        tag <= MAX_TAG,
    ensures
        tags_fit(final(fields)@),
        field_models(final(fields)@) == field_models(old(fields)@) + texts_piece(
            tag,
            text_models(texts@),
        ),
{
    let ghost start = field_models(fields@);
    let ghost piece = texts_piece(tag, text_models(texts@));
    assert(start + piece.take(0) =~= start);
    for at in 0..texts.len()
        invariant
            tags_fit(fields@),
            tag <= MAX_TAG,
            piece == texts_piece(tag, text_models(texts@)),
            field_models(fields@) == start + piece.take(at as int),
    {
        push_bytes(fields, tag, copy_bytes(texts[at].as_str().as_bytes()));
        assert(piece[at as int] == text_field(tag, texts@[at as int]@));
        assert(field_models(fields@) =~= start + piece.take(at + 1));
    }
    assert(piece.take(texts@.len() as int) =~= piece);
}

pub fn put_number(fields: &mut Vec<Field>, tag: u32, number: u64)
    requires
        tags_fit(old(fields)@),
        tag <= MAX_TAG,
    ensures
        tags_fit(final(fields)@),
        field_models(final(fields)@) == field_models(old(fields)@) + number_piece(tag, number),
{
    if number != 0 {
        fields.push(Field { tag, value: FieldValue::Varint(number) });
    }
    assert(field_models(fields@) =~= field_models(old(fields)@) + number_piece(tag, number));
}

pub fn put_optional_number(fields: &mut Vec<Field>, tag: u32, number: Option<u32>)
    requires
        tags_fit(old(fields)@),
        tag <= MAX_TAG,
    ensures
        tags_fit(final(fields)@),
        field_models(final(fields)@) == field_models(old(fields)@) + optional_number_piece(
            tag,
            number,
        ),
{
    match number {
        None => {},
        Some(number) => fields.push(Field { tag, value: FieldValue::Varint(number as u64) }),
    }
    assert(field_models(fields@) =~= field_models(old(fields)@) + optional_number_piece(
        tag,
        number,
    ));
}

pub fn put_packed(fields: &mut Vec<Field>, tag: u32, numbers: &Vec<u64>)
    requires
        tags_fit(old(fields)@),
        tag <= MAX_TAG,
    ensures
        tags_fit(final(fields)@),
        field_models(final(fields)@) == field_models(old(fields)@) + packed_piece(tag, numbers@),
{
    if numbers.len() == 0 {
        assert(field_models(fields@) + packed_piece(tag, numbers@) =~= field_models(fields@));
        return ;
    }
    let mut bytes: Vec<u8> = Vec::new();
    assert(numbers@.skip(0) =~= numbers@);
    assert(bytes@ + varints(numbers@) =~= varints(numbers@));
    for at in 0..numbers.len()
        invariant
            varints(numbers@) == bytes@ + varints(numbers@.skip(at as int)),
    {
        let ghost before = bytes@;
        let ghost left = numbers@.skip(at as int);
        put_varint(numbers[at], &mut bytes);
        proof {
            assert(left[0] == numbers@[at as int]);
            assert(left.drop_first() =~= numbers@.skip(at + 1));
            assert(before + (varint(left[0] as nat) + varints(left.drop_first())) =~= bytes@
                + varints(numbers@.skip(at + 1)));
        }
    }
    assert(bytes@ + varints(numbers@.skip(numbers@.len() as int)) =~= bytes@);
    push_bytes(fields, tag, bytes);
}

pub fn put_packed_signed(fields: &mut Vec<Field>, tag: u32, numbers: &Vec<i64>)
    requires
        tags_fit(old(fields)@),
        tag <= MAX_TAG,
    ensures
        tags_fit(final(fields)@),
        field_models(final(fields)@) == field_models(old(fields)@) + packed_piece(
            tag,
            signed_models(numbers@),
        ),
{
    let mut wire: Vec<u64> = Vec::new();
    for at in 0..numbers.len()
        invariant
            wire@ == signed_models(numbers@).take(at as int),
    {
        wire.push(signed_to_wire(numbers[at]));
        assert(wire@ =~= signed_models(numbers@).take(at + 1));
    }
    assert(wire@ =~= signed_models(numbers@));
    put_packed(fields, tag, &wire);
}

pub fn put_message<M: WireMessage>(fields: &mut Vec<Field>, tag: u32, message: &M)
    requires
        tags_fit(old(fields)@),
        tag <= MAX_TAG,
    ensures
        tags_fit(final(fields)@),
        field_models(final(fields)@) == field_models(old(fields)@) + message_piece::<M>(
            tag,
            message.model(),
        ),
{
    push_bytes(fields, tag, encode_message(message));
}

pub fn put_flag(fields: &mut Vec<Field>, tag: u32, flag: bool)
    requires
        tags_fit(old(fields)@),
        tag <= MAX_TAG,
    ensures
        tags_fit(final(fields)@),
        field_models(final(fields)@) == field_models(old(fields)@) + flag_piece(tag, flag),
{
    put_number(fields, tag, if flag { 1 } else { 0 });
}

pub fn put_optional_message<M: WireMessage>(fields: &mut Vec<Field>, tag: u32, message: &Option<M>)
    requires
        tags_fit(old(fields)@),
        tag <= MAX_TAG,
    ensures
        tags_fit(final(fields)@),
        field_models(final(fields)@) == field_models(old(fields)@) + optional_message_piece::<M>(
            tag,
            optional_model::<M>(*message),
        ),
{
    match message {
        None => {
            assert(field_models(fields@) + Seq::<FieldModel>::empty() =~= field_models(fields@));
        },
        Some(message) => put_message(fields, tag, message),
    }
}

pub fn put_messages<M: WireMessage>(fields: &mut Vec<Field>, tag: u32, messages: &Vec<M>)
    requires
        tags_fit(old(fields)@),
        tag <= MAX_TAG,
    ensures
        tags_fit(final(fields)@),
        field_models(final(fields)@) == field_models(old(fields)@) + messages_piece::<M>(
            tag,
            message_models::<M>(messages@),
        ),
{
    let ghost start = field_models(fields@);
    let ghost piece = messages_piece::<M>(tag, message_models::<M>(messages@));
    assert(start + piece.take(0) =~= start);
    for at in 0..messages.len()
        invariant
            tags_fit(fields@),
            tag <= MAX_TAG,
            piece == messages_piece::<M>(tag, message_models::<M>(messages@)),
            field_models(fields@) == start + piece.take(at as int),
    {
        push_bytes(fields, tag, encode_message(&messages[at]));
        assert(piece[at as int] == message_field::<M>(tag, messages@[at as int].model()));
        assert(field_models(fields@) =~= start + piece.take(at + 1));
    }
    assert(piece.take(messages@.len() as int) =~= piece);
}

// ---------------------------------------------------------------------------
// Values out of fields
// ---------------------------------------------------------------------------

pub fn take_numbers(value: FieldValue) -> (numbers: Option<Vec<u64>>)
    ensures
        match numbers {
            Some(numbers) => numbers_of(value@) == Some(numbers@),
            None => numbers_of(value@) is None,
        },
{
    match value {
        FieldValue::Varint(number) => {
            let mut numbers: Vec<u64> = Vec::new();
            numbers.push(number);
            assert(numbers@ =~= seq![number]);
            Some(numbers)
        },
        FieldValue::Bytes(bytes) => {
            let mut numbers: Vec<u64> = Vec::new();
            let mut left: &[u8] = bytes.as_slice();
            proof {
                match read_varints(left@) {
                    None => {},
                    Some(more) => assert(numbers@ + more =~= more),
                }
            }
            while left.len() > 0
                invariant
                    value@ == ValueModel::Bytes(bytes@),
                    read_varints(bytes@) == match read_varints(left@) {
                        None => None::<Seq<u64>>,
                        Some(more) => Some(numbers@ + more),
                    },
                decreases left@.len(),
            {
                proof {
                    lemma_varint_end_bounds(left@, 0);
                }
                match take_varint(left) {
                    Ok((number, rest)) => {
                        let ghost before = numbers@;
                        numbers.push(number);
                        proof {
                            match read_varints(rest@) {
                                None => {},
                                Some(more) => {
                                    assert(before + (seq![number] + more) =~= numbers@ + more);
                                },
                            }
                        }
                        left = rest;
                    },
                    Err(_) => {
                        return None;
                    },
                }
            }
            assert(numbers@ + Seq::<u64>::empty() =~= numbers@);
            Some(numbers)
        },
        FieldValue::Other => None,
    }
}

/// Adds the numbers of a repeated field.
pub fn extend_numbers(numbers: &mut Vec<u64>, value: FieldValue) -> (extended: Option<()>)
    ensures
        match extended {
            Some(()) => numbers_of(value@) is Some && final(numbers)@ == old(numbers)@ + numbers_of(
                value@,
            )->Some_0,
            None => numbers_of(value@) is None,
        },
{
    let mut more = take_numbers(value)?;
    numbers.append(&mut more);
    Some(())
}

/// Adds the signed numbers of a repeated field.
pub fn extend_signed(numbers: &mut Vec<i64>, value: FieldValue) -> (extended: Option<()>)
    ensures
        match extended {
            Some(()) => numbers_of(value@) is Some && final(numbers)@ == old(numbers)@
                + unsigned_models(numbers_of(value@)->Some_0),
            None => numbers_of(value@) is None,
        },
{
    let more = take_numbers(value)?;
    let ghost before = numbers@;
    assert(before + unsigned_models(more@).take(0) =~= before);
    for at in 0..more.len()
        invariant
            numbers@ == before + unsigned_models(more@).take(at as int),
    {
        numbers.push(signed_from_wire(more[at]));
        assert(numbers@ =~= before + unsigned_models(more@).take(at + 1));
    }
    assert(unsigned_models(more@).take(more@.len() as int) =~= unsigned_models(more@));
    Some(())
}

pub fn merge_nested<M: WireMessage>(message: &mut M, value: FieldValue, budget: u32) -> (merged:
    Option<()>)
    ensures
        match merged {
            Some(()) => nested_onto::<M>(old(message).model(), value@, budget as nat) == Some(
                final(message).model(),
            ),
            None => nested_onto::<M>(old(message).model(), value@, budget as nat) is None,
        },
{
    match value {
        FieldValue::Bytes(bytes) => {
            if budget == 0 {
                return None;
            }
            assert(bytes@.take(bytes@.len() as int) =~= bytes@);
            match merge_bytes::<M>(message, bytes.as_slice(), 0, budget - 1) {
                Ok(()) => Some(()),
                Err(_) => None,
            }
        },
        _ => None,
    }
}

pub fn take_nested<M: WireMessage>(value: FieldValue, budget: u32) -> (message: Option<M>)
    ensures
        match message {
            Some(message) => nested::<M>(value@, budget as nat) == Some(message.model()),
            None => nested::<M>(value@, budget as nat) is None,
        },
{
    let mut message = M::blank();
    merge_nested::<M>(&mut message, value, budget)?;
    Some(message)
}

pub fn low_half(number: u64) -> (low: u32)
    ensures
        low == low32(number),
{
    (number % 0x1_0000_0000) as u32
}

// ---------------------------------------------------------------------------
// Fields by number
// ---------------------------------------------------------------------------

/// The payloads that fields carry under a number, in order.
pub open spec fn payloads(fields: Seq<FieldModel>, tag: u32) -> Seq<ValueModel>
    decreases fields.len(),
{
    if fields.len() == 0 {
        Seq::empty()
    } else {
        let before = payloads(fields.drop_last(), tag);
        if fields.last().tag == tag { before.push(fields.last().value) } else { before }
    }
}

pub proof fn lemma_payloads_concat(first: Seq<FieldModel>, second: Seq<FieldModel>)
    ensures
        forall|tag: u32| #[trigger]
            payloads(first + second, tag) == payloads(first, tag) + payloads(second, tag),
    decreases second.len(),
{
    if second.len() == 0 {
        assert(first + second =~= first);
        assert forall|tag: u32| #[trigger] payloads(first + second, tag) == payloads(first, tag)
            + payloads(second, tag) by {
            assert(payloads(first, tag) + payloads(second, tag) =~= payloads(first, tag));
        }
    } else {
        assert((first + second).drop_last() =~= first + second.drop_last());
        lemma_payloads_concat(first, second.drop_last());
        assert forall|tag: u32| #[trigger] payloads(first + second, tag) == payloads(first, tag)
            + payloads(second, tag) by {
            assert(payloads(first + second.drop_last(), tag) == payloads(first, tag) + payloads(
                second.drop_last(),
                tag,
            ));
            assert(payloads(first + second, tag) =~= payloads(first, tag) + payloads(second, tag));
        }
    }
}

pub proof fn lemma_payloads_uniform(piece: Seq<FieldModel>, own: u32)
    requires
        forall|i: int| 0 <= i < piece.len() ==> (#[trigger] piece[i]).tag == own,
    ensures
        forall|tag: u32| #[trigger]
            payloads(piece, tag) == if tag == own {
                piece.map_values(|field: FieldModel| field.value)
            } else {
                Seq::empty()
            },
    decreases piece.len(),
{
    if piece.len() > 0 {
        let front = piece.drop_last();
        lemma_payloads_uniform(front, own);
        assert(piece[piece.len() - 1].tag == own);
        assert forall|tag: u32| #[trigger] payloads(piece, tag) == if tag == own {
            piece.map_values(|field: FieldModel| field.value)
        } else {
            Seq::empty()
        } by {
            assert(payloads(front, tag).len() >= 0);
            if tag == own {
                assert(payloads(piece, tag) =~= piece.map_values(|field: FieldModel| field.value));
            }
        }
    } else {
        assert forall|tag: u32| #[trigger] payloads(piece, tag) == if tag == own {
            piece.map_values(|field: FieldModel| field.value)
        } else {
            Seq::empty()
        } by {
            assert(piece.map_values(|field: FieldModel| field.value) =~= Seq::<ValueModel>::empty());
        }
    }
}

/// Signed numbers travel in two's complement: a number that is not negative as it is, and a
/// negative one as what is missing to 2 to the 64th.
pub proof fn signed_numbers_wrap(value: i64)
    ensures
        value >= 0 ==> to_wire(value) == value,
        value < 0 ==> to_wire(value) == value + 0x1_0000_0000_0000_0000,
        from_wire(to_wire(value)) == value,
{
}

/// Packed numbers stand one after the other.
pub proof fn packed_numbers_follow_one_another(first: Seq<u64>, number: u64)
    ensures
        varints(Seq::empty()) == Seq::<u8>::empty(),
        varints(first.push(number)) == varints(first) + varint(number as nat),
    decreases first.len(),
{
    if first.len() == 0 {
        assert(first.push(number).drop_first() =~= Seq::<u64>::empty());
        assert(varints(first) =~= Seq::<u8>::empty());
        let one = first.push(number);
        assert(one[0] == number);
        assert(varints(one) == varint(number as nat) + varints(one.drop_first()));
        assert(varints(one.drop_first()) =~= Seq::<u8>::empty());
        assert(varints(one) =~= varint(number as nat));
        assert(varints(first) + varint(number as nat) =~= varint(number as nat));
    } else {
        let rest = first.drop_first();
        assert(first.push(number).drop_first() =~= rest.push(number));
        packed_numbers_follow_one_another(rest, number);
        assert(varints(first.push(number)) =~= varints(first) + varint(number as nat));
    }
}

/// Bytes give the message that their fields give, one after the other: a field at the front
/// of the bytes is taken before what follows it.
pub proof fn fields_are_taken_in_order<M: WireModel>(
    start: M::Model,
    field: FieldModel,
    rest: Seq<u8>,
    budget: nat,
)
    requires
        writable(field),
    ensures
        decoded_onto::<M>(start, Seq::empty(), budget) == Some(start),
        decoded_onto::<M>(start, write_field(field) + rest, budget) == match M::merged(
            start,
            field,
            budget,
        ) {
            Some(next) => decoded_onto::<M>(next, rest, budget),
            None => None,
        },
{
    lemma_fold_short::<M>(start, Seq::empty(), budget);
    lemma_field_round_trip(field, rest, budget);
    lemma_decoded_step::<M>(start, write_field(field) + rest, budget);
}

// ---------------------------------------------------------------------------
// What a fault tells
// ---------------------------------------------------------------------------

/// A field that is written in another way than the message declares.
pub open spec fn misread(actual: u8, expected: u8, place: Seq<char>) -> Option<FaultModel> {
    Some(
        FaultModel {
            kind: WireFault::UnexpectedWireType { actual, expected },
            places: seq![place],
        },
    )
}

/// A text that was written has no fault, whatever follows it; one that is cut off, or is no text,
/// has its own.
pub proof fn texts_are_faulted_for_what_is_wrong(
    wire: u8,
    text: Seq<char>,
    bytes: Seq<u8>,
    rest: Seq<u8>,
    length: u64,
)
    requires
        encode_utf8(text).len() <= u64::MAX,
        bytes.len() <= u64::MAX,
    ensures
        text_fault(2, varint(encode_utf8(text).len()) + (encode_utf8(text) + rest)) is None,
        !valid_utf8(bytes) ==> text_fault(2, varint(bytes.len()) + (bytes + rest)) == Some(
            WireFault::InvalidString,
        ),
        rest.len() < length ==> text_fault(2, varint(length as nat) + rest) == Some(
            WireFault::BufferUnderflow,
        ),
        text_fault(2, Seq::empty()) == Some(WireFault::InvalidVarint),
        wire != 2 ==> text_fault(wire, bytes) == Some(
            WireFault::UnexpectedWireType { actual: wire, expected: 2 },
        ),
{
    lemma_text(text);
    lemma_varint_round_trip(encode_utf8(text).len() as u64, encode_utf8(text) + rest);
    lemma_varint_round_trip(bytes.len() as u64, bytes + rest);
    lemma_varint_round_trip(length, rest);
    assert((encode_utf8(text) + rest).take(encode_utf8(text).len() as int) =~= encode_utf8(text));
    assert((bytes + rest).take(bytes.len() as int) =~= bytes);
}

/// A number that was written has no fault, alone or packed, whatever follows it.
pub proof fn numbers_are_faulted_for_what_is_wrong(
    wire: u8,
    number: u64,
    numbers: Seq<u64>,
    rest: Seq<u8>,
)
    requires
        varints(numbers).len() <= u64::MAX,
    ensures
        number_fault(0, varint(number as nat) + rest) is None,
        packed_fault(0, varint(number as nat) + rest) is None,
        packed_fault(2, varint(varints(numbers).len()) + (varints(numbers) + rest)) is None,
        number_fault(0, Seq::empty()) == Some(WireFault::InvalidVarint),
        wire != 0 ==> number_fault(wire, rest) == Some(
            WireFault::UnexpectedWireType { actual: wire, expected: 0 },
        ),
        wire != 0 && wire != 2 ==> packed_fault(wire, rest) == Some(
            WireFault::UnexpectedWireType { actual: wire, expected: 0 },
        ),
{
    lemma_varint_round_trip(number, rest);
    lemma_varint_round_trip(varints(numbers).len() as u64, varints(numbers) + rest);
    lemma_run_has_no_fault(numbers, rest);
    assert((varints(numbers) + rest).len() - varints(numbers).len() == rest.len());
}

proof fn lemma_run_has_no_fault(numbers: Seq<u64>, rest: Seq<u8>)
    ensures
        run_fault(varints(numbers) + rest, rest.len()) is None,
    decreases numbers.len(),
{
    let bytes = varints(numbers) + rest;
    if numbers.len() > 0 {
        let after = varints(numbers.drop_first()) + rest;
        lemma_run_has_no_fault(numbers.drop_first(), rest);
        assert(bytes =~= varint(numbers[0] as nat) + after);
        assert(varint(numbers[0] as nat).len() >= 1);
        lemma_varint_round_trip(numbers[0], after);
    }
}

/// Messages lie inside one another only as deep as is allowed.
pub proof fn nesting_is_bounded<M: WireModel>(bytes: Seq<u8>, place: Seq<char>)
    ensures
        nested::<M>(ValueModel::Bytes(bytes), 0) is None,
        nested_fault::<M>(2, bytes, 0, place) == Some(
            FaultModel { kind: WireFault::RecursionLimitReached, places: seq![place] },
        ),
{
}

/// A place is told behind those before it, with a colon behind it, and the kind at the end.
pub proof fn places_are_told_in_order(
    kind: WireFault,
    places: Seq<Seq<char>>,
    place: Seq<char>,
)
    ensures
        place_text(places.push(place)) == place_text(places) + place + ": "@,
        (FaultModel { kind, places: Seq::empty() }).text() == "failed to decode Protobuf message: "@
            + kind.text(),
{
    assert(places.push(place).drop_last() =~= places);
    let fault = FaultModel { kind, places: Seq::<Seq<char>>::empty() };
    assert(place_text(fault.places) =~= Seq::<char>::empty());
    assert(fault.text() =~= "failed to decode Protobuf message: "@ + kind.text());
}

/// A message is written as its fields, one after the other, and read from blank.
pub proof fn messages_are_their_fields_in_order<M: WireModel>(
    model: M::Model,
    bytes: Seq<u8>,
    budget: nat,
)
    ensures
        encoded::<M>(model) == write_fields(M::fields_model(model)),
        decoded::<M>(bytes, budget) == decoded_onto::<M>(M::blank_model(), bytes, budget),
{
}

} // verus!
