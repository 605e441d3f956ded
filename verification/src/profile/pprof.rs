//! The pprof format.
//!
//! Names are kept once, in a table of strings whose first entry is empty, and
//! referred to by their place in it.
use vstd::prelude::*;
use vstd::utf8::{encode_utf8, valid_utf8};

use crate::symbolize::codec::{field_models, Field, FieldModel, ValueModel, RECURSION_LIMIT};
use crate::symbolize::message::{
    declared, decode_fault, decode_message, decoded, decoded_onto, encode_message, encoded, extend_numbers,
    extend_signed, find_nested_fault, find_number_fault, find_packed_fault, find_text_fault,
    find_unknown_fault,
    flag_piece, fold_fields, from_wire, lemma_declared_writable, lemma_fold_grow,
    lemma_fold_repeated, lemma_fold_short, lemma_message_round_trip, lemma_payload_within, lemma_payloads_concat, lemma_payloads_uniform,
    lemma_run_sizes, lemma_signed_round_trip, lemma_text, lemma_varints_round_trip, merge_nested, misread,
    message_models, messages_piece, nested, nested_fault, nested_onto, number_fault, number_of, number_piece, numbers_of,
    optional_message_piece, optional_model, or_blank, packed_fault, packed_piece, payloads, placed, put_flag, put_messages,
    put_number, put_optional_message, put_packed, put_packed_signed, put_texts, signed_from_wire,
    signed_models, signed_to_wire, take_nested, take_number, take_text, text_fault, text_models, text_of,
    texts_piece, to_wire, unknown_fault, unsigned_models, varints, DecodeFault, FaultModel, WireMessage,
    WireModel,
};

verus! {

/// What a value counts, and in what unit.
#[derive(Clone, Copy, Debug, PartialEq, Eq)]
pub struct ValueType {
    /// Place of the name in the string table.
    pub type_: i64,
    /// Place of the unit in the string table.
    pub unit: i64,
}

/// Mathematical counterpart of [`ValueType`].
pub struct ValueTypeModel {
    pub type_: i64,
    pub unit: i64,
}

impl WireModel for ValueType {
    type Model = ValueTypeModel;

    open spec fn model(&self) -> ValueTypeModel {
        ValueTypeModel {
            type_: self.type_,
            unit: self.unit,
        }
    }

    open spec fn blank_model() -> ValueTypeModel {
        ValueTypeModel {
            type_: 0,
            unit: 0,
        }
    }

    open spec fn merged(
        model: ValueTypeModel,
        field: FieldModel,
        budget: nat,
    ) -> Option<ValueTypeModel> {
        if field.tag == 1 {
            match number_of(field.value) {
                None => None,
                Some(number) => Some(ValueTypeModel { type_: from_wire(number), ..model }),
            }
        } else if field.tag == 2 {
            match number_of(field.value) {
                None => None,
                Some(number) => Some(ValueTypeModel { unit: from_wire(number), ..model }),
            }
        } else {
            Some(model)
        }
    }

    open spec fn field_fault(tag: u32, wire: u8, bytes: Seq<u8>, budget: nat) -> Option<
        FaultModel,
    > {
        if tag == 1 {
            placed(number_fault(wire, bytes), "ValueType.r#type"@)
        } else if tag == 2 {
            placed(number_fault(wire, bytes), "ValueType.unit"@)
        } else {
            unknown_fault(wire, tag, bytes, budget)
        }
    }

    open spec fn fields_model(model: ValueTypeModel) -> Seq<FieldModel> {
        number_piece(1, to_wire(model.type_))
            + number_piece(2, to_wire(model.unit))
    }

    open spec fn height() -> nat {
        0
    }
}

impl WireMessage for ValueType {
    fn blank() -> (message: Self) {
        let message = ValueType { type_: 0, unit: 0 };
        message
    }

    fn merge(&mut self, field: Field, budget: u32) -> (merged: Option<()>) {
        match field.tag {
            1 => {
                self.type_ = signed_from_wire(take_number(field.value)?);
            },
            2 => {
                self.unit = signed_from_wire(take_number(field.value)?);
            },
            _ => {},
        }
        Some(())
    }

    fn find_fault(tag: u32, wire: u8, bytes: &[u8], budget: u32) -> (fault: Option<DecodeFault>) {
        match tag {
            1 => find_number_fault(wire, bytes, "ValueType.r#type"),
            2 => find_number_fault(wire, bytes, "ValueType.unit"),
            _ => find_unknown_fault(wire, tag, bytes, budget),
        }
    }

    fn fields(&self) -> (fields: Vec<Field>) {
        let mut fields: Vec<Field> = Vec::new();
        assert(field_models(fields@) =~= Seq::<FieldModel>::empty());
        put_number(&mut fields, 1, signed_to_wire(self.type_));
        assert(field_models(fields@) =~= number_piece(1, to_wire(self.model().type_)));
        put_number(&mut fields, 2, signed_to_wire(self.unit));
        fields
    }

    proof fn fields_rebuild(model: ValueTypeModel, budget: nat) {
        let all = Self::fields_model(model);
        let blank = Self::blank_model();
        let p1 = number_piece(1, to_wire(model.type_));
        let s1 = p1;
        let p2 = number_piece(2, to_wire(model.unit));
        let s2 = s1 + p2;
        lemma_run_sizes(s1, p2);
        let m1 = ValueTypeModel { type_: model.type_, ..blank };
        assert(declared(p1) && fold_fields::<Self>(blank, p1, budget) == Some(m1)) by {
            reveal(declared);
            lemma_fold_short::<Self>(blank, p1, budget);
        }
        let m2 = ValueTypeModel { unit: model.unit, ..m1 };
        assert(declared(p2) && fold_fields::<Self>(m1, p2, budget) == Some(m2)) by {
            reveal(declared);
            lemma_fold_short::<Self>(m1, p2, budget);
        }
        lemma_fold_grow::<Self>(blank, s1, m1, p2, m2, budget);
        assert(s2 == all);
        assert(m2 == model);
        lemma_declared_writable(all);
    }
}

impl Default for ValueType {
    fn default() -> (message: Self)
        ensures
            message.model() == Self::blank_model(),
    {
        Self::blank()
    }
}

/// Something known of a sample beside its stack.
#[derive(Clone, Copy, Debug, PartialEq, Eq)]
pub struct Label {
    pub key: i64,
    pub str: i64,
    pub num: i64,
    pub num_unit: i64,
}

/// Mathematical counterpart of [`Label`].
pub struct LabelModel {
    pub key: i64,
    pub str: i64,
    pub num: i64,
    pub num_unit: i64,
}

impl WireModel for Label {
    type Model = LabelModel;

    open spec fn model(&self) -> LabelModel {
        LabelModel {
            key: self.key,
            str: self.str,
            num: self.num,
            num_unit: self.num_unit,
        }
    }

    open spec fn blank_model() -> LabelModel {
        LabelModel {
            key: 0,
            str: 0,
            num: 0,
            num_unit: 0,
        }
    }

    open spec fn merged(model: LabelModel, field: FieldModel, budget: nat) -> Option<LabelModel> {
        if field.tag == 1 {
            match number_of(field.value) {
                None => None,
                Some(number) => Some(LabelModel { key: from_wire(number), ..model }),
            }
        } else if field.tag == 2 {
            match number_of(field.value) {
                None => None,
                Some(number) => Some(LabelModel { str: from_wire(number), ..model }),
            }
        } else if field.tag == 3 {
            match number_of(field.value) {
                None => None,
                Some(number) => Some(LabelModel { num: from_wire(number), ..model }),
            }
        } else if field.tag == 4 {
            match number_of(field.value) {
                None => None,
                Some(number) => Some(LabelModel { num_unit: from_wire(number), ..model }),
            }
        } else {
            Some(model)
        }
    }

    open spec fn field_fault(tag: u32, wire: u8, bytes: Seq<u8>, budget: nat) -> Option<
        FaultModel,
    > {
        if tag == 1 {
            placed(number_fault(wire, bytes), "Label.key"@)
        } else if tag == 2 {
            placed(number_fault(wire, bytes), "Label.str"@)
        } else if tag == 3 {
            placed(number_fault(wire, bytes), "Label.num"@)
        } else if tag == 4 {
            placed(number_fault(wire, bytes), "Label.num_unit"@)
        } else {
            unknown_fault(wire, tag, bytes, budget)
        }
    }

    open spec fn fields_model(model: LabelModel) -> Seq<FieldModel> {
        number_piece(1, to_wire(model.key))
            + number_piece(2, to_wire(model.str))
            + number_piece(3, to_wire(model.num))
            + number_piece(4, to_wire(model.num_unit))
    }

    open spec fn height() -> nat {
        0
    }
}

impl WireMessage for Label {
    fn blank() -> (message: Self) {
        let message = Label { key: 0, str: 0, num: 0, num_unit: 0 };
        message
    }

    fn merge(&mut self, field: Field, budget: u32) -> (merged: Option<()>) {
        match field.tag {
            1 => {
                self.key = signed_from_wire(take_number(field.value)?);
            },
            2 => {
                self.str = signed_from_wire(take_number(field.value)?);
            },
            3 => {
                self.num = signed_from_wire(take_number(field.value)?);
            },
            4 => {
                self.num_unit = signed_from_wire(take_number(field.value)?);
            },
            _ => {},
        }
        Some(())
    }

    fn find_fault(tag: u32, wire: u8, bytes: &[u8], budget: u32) -> (fault: Option<DecodeFault>) {
        match tag {
            1 => find_number_fault(wire, bytes, "Label.key"),
            2 => find_number_fault(wire, bytes, "Label.str"),
            3 => find_number_fault(wire, bytes, "Label.num"),
            4 => find_number_fault(wire, bytes, "Label.num_unit"),
            _ => find_unknown_fault(wire, tag, bytes, budget),
        }
    }

    fn fields(&self) -> (fields: Vec<Field>) {
        let mut fields: Vec<Field> = Vec::new();
        assert(field_models(fields@) =~= Seq::<FieldModel>::empty());
        put_number(&mut fields, 1, signed_to_wire(self.key));
        assert(field_models(fields@) =~= number_piece(1, to_wire(self.model().key)));
        put_number(&mut fields, 2, signed_to_wire(self.str));
        put_number(&mut fields, 3, signed_to_wire(self.num));
        put_number(&mut fields, 4, signed_to_wire(self.num_unit));
        fields
    }

    proof fn fields_rebuild(model: LabelModel, budget: nat) {
        let all = Self::fields_model(model);
        let blank = Self::blank_model();
        let p1 = number_piece(1, to_wire(model.key));
        let s1 = p1;
        let p2 = number_piece(2, to_wire(model.str));
        let s2 = s1 + p2;
        let p3 = number_piece(3, to_wire(model.num));
        let s3 = s2 + p3;
        let p4 = number_piece(4, to_wire(model.num_unit));
        let s4 = s3 + p4;
        lemma_run_sizes(s3, p4);
        lemma_run_sizes(s2, p3);
        lemma_run_sizes(s1, p2);
        let m1 = LabelModel { key: model.key, ..blank };
        assert(declared(p1) && fold_fields::<Self>(blank, p1, budget) == Some(m1)) by {
            reveal(declared);
            lemma_fold_short::<Self>(blank, p1, budget);
        }
        let m2 = LabelModel { str: model.str, ..m1 };
        assert(declared(p2) && fold_fields::<Self>(m1, p2, budget) == Some(m2)) by {
            reveal(declared);
            lemma_fold_short::<Self>(m1, p2, budget);
        }
        lemma_fold_grow::<Self>(blank, s1, m1, p2, m2, budget);
        let m3 = LabelModel { num: model.num, ..m2 };
        assert(declared(p3) && fold_fields::<Self>(m2, p3, budget) == Some(m3)) by {
            reveal(declared);
            lemma_fold_short::<Self>(m2, p3, budget);
        }
        lemma_fold_grow::<Self>(blank, s2, m2, p3, m3, budget);
        let m4 = LabelModel { num_unit: model.num_unit, ..m3 };
        assert(declared(p4) && fold_fields::<Self>(m3, p4, budget) == Some(m4)) by {
            reveal(declared);
            lemma_fold_short::<Self>(m3, p4, budget);
        }
        lemma_fold_grow::<Self>(blank, s3, m3, p4, m4, budget);
        assert(s4 == all);
        assert(m4 == model);
        lemma_declared_writable(all);
    }
}

impl Default for Label {
    fn default() -> (message: Self)
        ensures
            message.model() == Self::blank_model(),
    {
        Self::blank()
    }
}

/// One stack, innermost location first, with its values.
#[derive(Clone, Debug, PartialEq, Eq)]
pub struct Sample {
    pub location_id: Vec<u64>,
    pub value: Vec<i64>,
    pub label: Vec<Label>,
}

/// Mathematical counterpart of [`Sample`].
pub struct SampleModel {
    pub location_id: Seq<u64>,
    pub value: Seq<i64>,
    pub label: Seq<LabelModel>,
}

impl WireModel for Sample {
    type Model = SampleModel;

    open spec fn model(&self) -> SampleModel {
        SampleModel {
            location_id: self.location_id@,
            value: self.value@,
            label: message_models::<Label>(self.label@),
        }
    }

    open spec fn blank_model() -> SampleModel {
        SampleModel {
            location_id: Seq::empty(),
            value: Seq::empty(),
            label: Seq::empty(),
        }
    }

    open spec fn merged(model: SampleModel, field: FieldModel, budget: nat) -> Option<SampleModel> {
        if field.tag == 1 {
            match numbers_of(field.value) {
                None => None,
                Some(numbers) => Some(
                    SampleModel { location_id: model.location_id + numbers, ..model },
                ),
            }
        } else if field.tag == 2 {
            match numbers_of(field.value) {
                None => None,
                Some(numbers) => Some(
                    SampleModel { value: model.value + unsigned_models(numbers), ..model },
                ),
            }
        } else if field.tag == 3 {
            match nested::<Label>(field.value, budget) {
                None => None,
                Some(item) => Some(SampleModel { label: model.label.push(item), ..model }),
            }
        } else {
            Some(model)
        }
    }

    open spec fn field_fault(tag: u32, wire: u8, bytes: Seq<u8>, budget: nat) -> Option<
        FaultModel,
    > {
        if tag == 1 {
            placed(packed_fault(wire, bytes), "Sample.location_id"@)
        } else if tag == 2 {
            placed(packed_fault(wire, bytes), "Sample.value"@)
        } else if tag == 3 {
            nested_fault::<Label>(wire, bytes, budget, "Sample.label"@)
        } else {
            unknown_fault(wire, tag, bytes, budget)
        }
    }

    open spec fn fields_model(model: SampleModel) -> Seq<FieldModel> {
        packed_piece(1, model.location_id)
            + packed_piece(2, signed_models(model.value))
            + messages_piece::<Label>(3, model.label)
    }

    open spec fn height() -> nat {
        1
    }
}

impl WireMessage for Sample {
    fn blank() -> (message: Self) {
        let message = Sample { location_id: Vec::new(), value: Vec::new(), label: Vec::new() };
        assert(message.location_id@ =~= Seq::<u64>::empty());
        assert(message.value@ =~= Seq::<i64>::empty());
        assert(message_models::<Label>(message.label@) =~= Seq::<LabelModel>::empty());
        message
    }

    fn merge(&mut self, field: Field, budget: u32) -> (merged: Option<()>) {
        match field.tag {
            1 => {
                extend_numbers(&mut self.location_id, field.value)?;
            },
            2 => {
                extend_signed(&mut self.value, field.value)?;
            },
            3 => {
                let item = take_nested::<Label>(field.value, budget)?;
                self.label.push(item);
                assert(message_models::<Label>(self.label@)
                    =~= old(self).model().label.push(item.model()));
            },
            _ => {},
        }
        Some(())
    }

    fn find_fault(tag: u32, wire: u8, bytes: &[u8], budget: u32) -> (fault: Option<DecodeFault>) {
        match tag {
            1 => find_packed_fault(wire, bytes, "Sample.location_id"),
            2 => find_packed_fault(wire, bytes, "Sample.value"),
            3 => find_nested_fault::<Label>(wire, bytes, budget, "Sample.label"),
            _ => find_unknown_fault(wire, tag, bytes, budget),
        }
    }

    fn fields(&self) -> (fields: Vec<Field>) {
        let mut fields: Vec<Field> = Vec::new();
        assert(field_models(fields@) =~= Seq::<FieldModel>::empty());
        put_packed(&mut fields, 1, &self.location_id);
        assert(field_models(fields@) =~= packed_piece(1, self.model().location_id));
        put_packed_signed(&mut fields, 2, &self.value);
        put_messages(&mut fields, 3, &self.label);
        fields
    }

    proof fn fields_rebuild(model: SampleModel, budget: nat) {
        let all = Self::fields_model(model);
        let blank = Self::blank_model();
        let p1 = packed_piece(1, model.location_id);
        let s1 = p1;
        let p2 = packed_piece(2, signed_models(model.value));
        let s2 = s1 + p2;
        let p3 = messages_piece::<Label>(3, model.label);
        let s3 = s2 + p3;
        lemma_run_sizes(s2, p3);
        lemma_run_sizes(s1, p2);
        let m1 = SampleModel { location_id: model.location_id, ..blank };
        assert(declared(p1) && fold_fields::<Self>(blank, p1, budget) == Some(m1)) by {
            reveal(declared);
            lemma_varints_round_trip(model.location_id);
            assert(blank.location_id + model.location_id =~= model.location_id);
            lemma_fold_short::<Self>(blank, p1, budget);
        }
        let m2 = SampleModel { value: model.value, ..m1 };
        assert(declared(p2) && fold_fields::<Self>(m1, p2, budget) == Some(m2)) by {
            reveal(declared);
            lemma_signed_round_trip(model.value);
            lemma_varints_round_trip(signed_models(model.value));
            assert(m1.value + model.value =~= model.value);
            lemma_fold_short::<Self>(m1, p2, budget);
        }
        lemma_fold_grow::<Self>(blank, s1, m1, p2, m2, budget);
        let m3 = SampleModel { label: model.label, ..m2 };
        assert(declared(p3) && fold_fields::<Self>(m2, p3, budget) == Some(m3)) by {
            reveal(declared);
            let with = |items: Seq<LabelModel>| SampleModel { label: items, ..m2 };
            assert forall|i: int| 0 <= i < model.label.len() implies
                Self::merged(with(model.label.take(i)), #[trigger] p3[i], budget)
                == Some(with(model.label.take(i + 1))) by {
                lemma_payload_within(p3, i);
                lemma_message_round_trip::<Label>(model.label[i], (budget - 1) as nat);
                assert(model.label.take(i).push(model.label[i]) =~= model.label.take(i + 1));
            }
            lemma_fold_repeated::<Self, LabelModel>(p3, model.label, with, budget);
            assert(with(Seq::empty()) == m2);
        }
        lemma_fold_grow::<Self>(blank, s2, m2, p3, m3, budget);
        assert(s3 == all);
        assert(m3 == model);
        lemma_declared_writable(all);
    }
}

impl Default for Sample {
    fn default() -> (message: Self)
        ensures
            message.model() == Self::blank_model(),
    {
        Self::blank()
    }
}

/// A mapped image.
#[derive(Clone, Copy, Debug, PartialEq, Eq)]
pub struct Mapping {
    pub id: u64,
    pub memory_start: u64,
    pub memory_limit: u64,
    pub file_offset: u64,
    pub filename: i64,
    pub build_id: i64,
    pub has_functions: bool,
    pub has_filenames: bool,
    pub has_line_numbers: bool,
    pub has_inline_frames: bool,
}

/// Mathematical counterpart of [`Mapping`].
pub struct MappingModel {
    pub id: u64,
    pub memory_start: u64,
    pub memory_limit: u64,
    pub file_offset: u64,
    pub filename: i64,
    pub build_id: i64,
    pub has_functions: bool,
    pub has_filenames: bool,
    pub has_line_numbers: bool,
    pub has_inline_frames: bool,
}

impl WireModel for Mapping {
    type Model = MappingModel;

    open spec fn model(&self) -> MappingModel {
        MappingModel {
            id: self.id,
            memory_start: self.memory_start,
            memory_limit: self.memory_limit,
            file_offset: self.file_offset,
            filename: self.filename,
            build_id: self.build_id,
            has_functions: self.has_functions,
            has_filenames: self.has_filenames,
            has_line_numbers: self.has_line_numbers,
            has_inline_frames: self.has_inline_frames,
        }
    }

    open spec fn blank_model() -> MappingModel {
        MappingModel {
            id: 0,
            memory_start: 0,
            memory_limit: 0,
            file_offset: 0,
            filename: 0,
            build_id: 0,
            has_functions: false,
            has_filenames: false,
            has_line_numbers: false,
            has_inline_frames: false,
        }
    }

    open spec fn merged(
        model: MappingModel,
        field: FieldModel,
        budget: nat,
    ) -> Option<MappingModel> {
        if field.tag == 1 {
            match number_of(field.value) {
                None => None,
                Some(id) => Some(MappingModel { id, ..model }),
            }
        } else if field.tag == 2 {
            match number_of(field.value) {
                None => None,
                Some(memory_start) => Some(MappingModel { memory_start, ..model }),
            }
        } else if field.tag == 3 {
            match number_of(field.value) {
                None => None,
                Some(memory_limit) => Some(MappingModel { memory_limit, ..model }),
            }
        } else if field.tag == 4 {
            match number_of(field.value) {
                None => None,
                Some(file_offset) => Some(MappingModel { file_offset, ..model }),
            }
        } else if field.tag == 5 {
            match number_of(field.value) {
                None => None,
                Some(number) => Some(MappingModel { filename: from_wire(number), ..model }),
            }
        } else if field.tag == 6 {
            match number_of(field.value) {
                None => None,
                Some(number) => Some(MappingModel { build_id: from_wire(number), ..model }),
            }
        } else if field.tag == 7 {
            match number_of(field.value) {
                None => None,
                Some(number) => Some(MappingModel { has_functions: number != 0, ..model }),
            }
        } else if field.tag == 8 {
            match number_of(field.value) {
                None => None,
                Some(number) => Some(MappingModel { has_filenames: number != 0, ..model }),
            }
        } else if field.tag == 9 {
            match number_of(field.value) {
                None => None,
                Some(number) => Some(MappingModel { has_line_numbers: number != 0, ..model }),
            }
        } else if field.tag == 10 {
            match number_of(field.value) {
                None => None,
                Some(number) => Some(MappingModel { has_inline_frames: number != 0, ..model }),
            }
        } else {
            Some(model)
        }
    }

    open spec fn field_fault(tag: u32, wire: u8, bytes: Seq<u8>, budget: nat) -> Option<
        FaultModel,
    > {
        if tag == 1 {
            placed(number_fault(wire, bytes), "Mapping.id"@)
        } else if tag == 2 {
            placed(number_fault(wire, bytes), "Mapping.memory_start"@)
        } else if tag == 3 {
            placed(number_fault(wire, bytes), "Mapping.memory_limit"@)
        } else if tag == 4 {
            placed(number_fault(wire, bytes), "Mapping.file_offset"@)
        } else if tag == 5 {
            placed(number_fault(wire, bytes), "Mapping.filename"@)
        } else if tag == 6 {
            placed(number_fault(wire, bytes), "Mapping.build_id"@)
        } else if tag == 7 {
            placed(number_fault(wire, bytes), "Mapping.has_functions"@)
        } else if tag == 8 {
            placed(number_fault(wire, bytes), "Mapping.has_filenames"@)
        } else if tag == 9 {
            placed(number_fault(wire, bytes), "Mapping.has_line_numbers"@)
        } else if tag == 10 {
            placed(number_fault(wire, bytes), "Mapping.has_inline_frames"@)
        } else {
            unknown_fault(wire, tag, bytes, budget)
        }
    }

    open spec fn fields_model(model: MappingModel) -> Seq<FieldModel> {
        number_piece(1, model.id)
            + number_piece(2, model.memory_start)
            + number_piece(3, model.memory_limit)
            + number_piece(4, model.file_offset)
            + number_piece(5, to_wire(model.filename))
            + number_piece(6, to_wire(model.build_id))
            + flag_piece(7, model.has_functions)
            + flag_piece(8, model.has_filenames)
            + flag_piece(9, model.has_line_numbers)
            + flag_piece(10, model.has_inline_frames)
    }

    open spec fn height() -> nat {
        0
    }
}

impl WireMessage for Mapping {
    fn blank() -> (message: Self) {
        let message = Mapping {
            id: 0,
            memory_start: 0,
            memory_limit: 0,
            file_offset: 0,
            filename: 0,
            build_id: 0,
            has_functions: false,
            has_filenames: false,
            has_line_numbers: false,
            has_inline_frames: false,
        };
        message
    }

    fn merge(&mut self, field: Field, budget: u32) -> (merged: Option<()>) {
        match field.tag {
            1 => {
                self.id = take_number(field.value)?;
            },
            2 => {
                self.memory_start = take_number(field.value)?;
            },
            3 => {
                self.memory_limit = take_number(field.value)?;
            },
            4 => {
                self.file_offset = take_number(field.value)?;
            },
            5 => {
                self.filename = signed_from_wire(take_number(field.value)?);
            },
            6 => {
                self.build_id = signed_from_wire(take_number(field.value)?);
            },
            7 => {
                self.has_functions = take_number(field.value)? != 0;
            },
            8 => {
                self.has_filenames = take_number(field.value)? != 0;
            },
            9 => {
                self.has_line_numbers = take_number(field.value)? != 0;
            },
            10 => {
                self.has_inline_frames = take_number(field.value)? != 0;
            },
            _ => {},
        }
        Some(())
    }

    fn find_fault(tag: u32, wire: u8, bytes: &[u8], budget: u32) -> (fault: Option<DecodeFault>) {
        match tag {
            1 => find_number_fault(wire, bytes, "Mapping.id"),
            2 => find_number_fault(wire, bytes, "Mapping.memory_start"),
            3 => find_number_fault(wire, bytes, "Mapping.memory_limit"),
            4 => find_number_fault(wire, bytes, "Mapping.file_offset"),
            5 => find_number_fault(wire, bytes, "Mapping.filename"),
            6 => find_number_fault(wire, bytes, "Mapping.build_id"),
            7 => find_number_fault(wire, bytes, "Mapping.has_functions"),
            8 => find_number_fault(wire, bytes, "Mapping.has_filenames"),
            9 => find_number_fault(wire, bytes, "Mapping.has_line_numbers"),
            10 => find_number_fault(wire, bytes, "Mapping.has_inline_frames"),
            _ => find_unknown_fault(wire, tag, bytes, budget),
        }
    }

    fn fields(&self) -> (fields: Vec<Field>) {
        let mut fields: Vec<Field> = Vec::new();
        assert(field_models(fields@) =~= Seq::<FieldModel>::empty());
        put_number(&mut fields, 1, self.id);
        assert(field_models(fields@) =~= number_piece(1, self.model().id));
        put_number(&mut fields, 2, self.memory_start);
        put_number(&mut fields, 3, self.memory_limit);
        put_number(&mut fields, 4, self.file_offset);
        put_number(&mut fields, 5, signed_to_wire(self.filename));
        put_number(&mut fields, 6, signed_to_wire(self.build_id));
        put_flag(&mut fields, 7, self.has_functions);
        put_flag(&mut fields, 8, self.has_filenames);
        put_flag(&mut fields, 9, self.has_line_numbers);
        put_flag(&mut fields, 10, self.has_inline_frames);
        fields
    }

    proof fn fields_rebuild(model: MappingModel, budget: nat) {
        let all = Self::fields_model(model);
        let blank = Self::blank_model();
        let p1 = number_piece(1, model.id);
        let s1 = p1;
        let p2 = number_piece(2, model.memory_start);
        let s2 = s1 + p2;
        let p3 = number_piece(3, model.memory_limit);
        let s3 = s2 + p3;
        let p4 = number_piece(4, model.file_offset);
        let s4 = s3 + p4;
        let p5 = number_piece(5, to_wire(model.filename));
        let s5 = s4 + p5;
        let p6 = number_piece(6, to_wire(model.build_id));
        let s6 = s5 + p6;
        let p7 = flag_piece(7, model.has_functions);
        let s7 = s6 + p7;
        let p8 = flag_piece(8, model.has_filenames);
        let s8 = s7 + p8;
        let p9 = flag_piece(9, model.has_line_numbers);
        let s9 = s8 + p9;
        let p10 = flag_piece(10, model.has_inline_frames);
        let s10 = s9 + p10;
        lemma_run_sizes(s9, p10);
        lemma_run_sizes(s8, p9);
        lemma_run_sizes(s7, p8);
        lemma_run_sizes(s6, p7);
        lemma_run_sizes(s5, p6);
        lemma_run_sizes(s4, p5);
        lemma_run_sizes(s3, p4);
        lemma_run_sizes(s2, p3);
        lemma_run_sizes(s1, p2);
        let m1 = MappingModel { id: model.id, ..blank };
        assert(declared(p1) && fold_fields::<Self>(blank, p1, budget) == Some(m1)) by {
            reveal(declared);
            lemma_fold_short::<Self>(blank, p1, budget);
        }
        let m2 = MappingModel { memory_start: model.memory_start, ..m1 };
        assert(declared(p2) && fold_fields::<Self>(m1, p2, budget) == Some(m2)) by {
            reveal(declared);
            lemma_fold_short::<Self>(m1, p2, budget);
        }
        lemma_fold_grow::<Self>(blank, s1, m1, p2, m2, budget);
        let m3 = MappingModel { memory_limit: model.memory_limit, ..m2 };
        assert(declared(p3) && fold_fields::<Self>(m2, p3, budget) == Some(m3)) by {
            reveal(declared);
            lemma_fold_short::<Self>(m2, p3, budget);
        }
        lemma_fold_grow::<Self>(blank, s2, m2, p3, m3, budget);
        let m4 = MappingModel { file_offset: model.file_offset, ..m3 };
        assert(declared(p4) && fold_fields::<Self>(m3, p4, budget) == Some(m4)) by {
            reveal(declared);
            lemma_fold_short::<Self>(m3, p4, budget);
        }
        lemma_fold_grow::<Self>(blank, s3, m3, p4, m4, budget);
        let m5 = MappingModel { filename: model.filename, ..m4 };
        assert(declared(p5) && fold_fields::<Self>(m4, p5, budget) == Some(m5)) by {
            reveal(declared);
            lemma_fold_short::<Self>(m4, p5, budget);
        }
        lemma_fold_grow::<Self>(blank, s4, m4, p5, m5, budget);
        let m6 = MappingModel { build_id: model.build_id, ..m5 };
        assert(declared(p6) && fold_fields::<Self>(m5, p6, budget) == Some(m6)) by {
            reveal(declared);
            lemma_fold_short::<Self>(m5, p6, budget);
        }
        lemma_fold_grow::<Self>(blank, s5, m5, p6, m6, budget);
        let m7 = MappingModel { has_functions: model.has_functions, ..m6 };
        assert(declared(p7) && fold_fields::<Self>(m6, p7, budget) == Some(m7)) by {
            reveal(declared);
            lemma_fold_short::<Self>(m6, p7, budget);
        }
        lemma_fold_grow::<Self>(blank, s6, m6, p7, m7, budget);
        let m8 = MappingModel { has_filenames: model.has_filenames, ..m7 };
        assert(declared(p8) && fold_fields::<Self>(m7, p8, budget) == Some(m8)) by {
            reveal(declared);
            lemma_fold_short::<Self>(m7, p8, budget);
        }
        lemma_fold_grow::<Self>(blank, s7, m7, p8, m8, budget);
        let m9 = MappingModel { has_line_numbers: model.has_line_numbers, ..m8 };
        assert(declared(p9) && fold_fields::<Self>(m8, p9, budget) == Some(m9)) by {
            reveal(declared);
            lemma_fold_short::<Self>(m8, p9, budget);
        }
        lemma_fold_grow::<Self>(blank, s8, m8, p9, m9, budget);
        let m10 = MappingModel { has_inline_frames: model.has_inline_frames, ..m9 };
        assert(declared(p10) && fold_fields::<Self>(m9, p10, budget) == Some(m10)) by {
            reveal(declared);
            lemma_fold_short::<Self>(m9, p10, budget);
        }
        lemma_fold_grow::<Self>(blank, s9, m9, p10, m10, budget);
        assert(s10 == all);
        assert(m10 == model);
        lemma_declared_writable(all);
    }
}

impl Default for Mapping {
    fn default() -> (message: Self)
        ensures
            message.model() == Self::blank_model(),
    {
        Self::blank()
    }
}

/// A line of source.
#[derive(Clone, Copy, Debug, PartialEq, Eq)]
pub struct Line {
    pub function_id: u64,
    pub line: i64,
}

/// Mathematical counterpart of [`Line`].
pub struct LineModel {
    pub function_id: u64,
    pub line: i64,
}

impl WireModel for Line {
    type Model = LineModel;

    open spec fn model(&self) -> LineModel {
        LineModel {
            function_id: self.function_id,
            line: self.line,
        }
    }

    open spec fn blank_model() -> LineModel {
        LineModel {
            function_id: 0,
            line: 0,
        }
    }

    open spec fn merged(model: LineModel, field: FieldModel, budget: nat) -> Option<LineModel> {
        if field.tag == 1 {
            match number_of(field.value) {
                None => None,
                Some(function_id) => Some(LineModel { function_id, ..model }),
            }
        } else if field.tag == 2 {
            match number_of(field.value) {
                None => None,
                Some(number) => Some(LineModel { line: from_wire(number), ..model }),
            }
        } else {
            Some(model)
        }
    }

    open spec fn field_fault(tag: u32, wire: u8, bytes: Seq<u8>, budget: nat) -> Option<
        FaultModel,
    > {
        if tag == 1 {
            placed(number_fault(wire, bytes), "Line.function_id"@)
        } else if tag == 2 {
            placed(number_fault(wire, bytes), "Line.line"@)
        } else {
            unknown_fault(wire, tag, bytes, budget)
        }
    }

    open spec fn fields_model(model: LineModel) -> Seq<FieldModel> {
        number_piece(1, model.function_id)
            + number_piece(2, to_wire(model.line))
    }

    open spec fn height() -> nat {
        0
    }
}

impl WireMessage for Line {
    fn blank() -> (message: Self) {
        let message = Line { function_id: 0, line: 0 };
        message
    }

    fn merge(&mut self, field: Field, budget: u32) -> (merged: Option<()>) {
        match field.tag {
            1 => {
                self.function_id = take_number(field.value)?;
            },
            2 => {
                self.line = signed_from_wire(take_number(field.value)?);
            },
            _ => {},
        }
        Some(())
    }

    fn find_fault(tag: u32, wire: u8, bytes: &[u8], budget: u32) -> (fault: Option<DecodeFault>) {
        match tag {
            1 => find_number_fault(wire, bytes, "Line.function_id"),
            2 => find_number_fault(wire, bytes, "Line.line"),
            _ => find_unknown_fault(wire, tag, bytes, budget),
        }
    }

    fn fields(&self) -> (fields: Vec<Field>) {
        let mut fields: Vec<Field> = Vec::new();
        assert(field_models(fields@) =~= Seq::<FieldModel>::empty());
        put_number(&mut fields, 1, self.function_id);
        assert(field_models(fields@) =~= number_piece(1, self.model().function_id));
        put_number(&mut fields, 2, signed_to_wire(self.line));
        fields
    }

    proof fn fields_rebuild(model: LineModel, budget: nat) {
        let all = Self::fields_model(model);
        let blank = Self::blank_model();
        let p1 = number_piece(1, model.function_id);
        let s1 = p1;
        let p2 = number_piece(2, to_wire(model.line));
        let s2 = s1 + p2;
        lemma_run_sizes(s1, p2);
        let m1 = LineModel { function_id: model.function_id, ..blank };
        assert(declared(p1) && fold_fields::<Self>(blank, p1, budget) == Some(m1)) by {
            reveal(declared);
            lemma_fold_short::<Self>(blank, p1, budget);
        }
        let m2 = LineModel { line: model.line, ..m1 };
        assert(declared(p2) && fold_fields::<Self>(m1, p2, budget) == Some(m2)) by {
            reveal(declared);
            lemma_fold_short::<Self>(m1, p2, budget);
        }
        lemma_fold_grow::<Self>(blank, s1, m1, p2, m2, budget);
        assert(s2 == all);
        assert(m2 == model);
        lemma_declared_writable(all);
    }
}

impl Default for Line {
    fn default() -> (message: Self)
        ensures
            message.model() == Self::blank_model(),
    {
        Self::blank()
    }
}

/// An address that stacks pass through, with the calls inlined there.
#[derive(Clone, Debug, PartialEq, Eq)]
pub struct Location {
    pub id: u64,
    pub mapping_id: u64,
    pub address: u64,
    pub line: Vec<Line>,
    pub is_folded: bool,
}

/// Mathematical counterpart of [`Location`].
pub struct LocationModel {
    pub id: u64,
    pub mapping_id: u64,
    pub address: u64,
    pub line: Seq<LineModel>,
    pub is_folded: bool,
}

impl WireModel for Location {
    type Model = LocationModel;

    open spec fn model(&self) -> LocationModel {
        LocationModel {
            id: self.id,
            mapping_id: self.mapping_id,
            address: self.address,
            line: message_models::<Line>(self.line@),
            is_folded: self.is_folded,
        }
    }

    open spec fn blank_model() -> LocationModel {
        LocationModel {
            id: 0,
            mapping_id: 0,
            address: 0,
            line: Seq::empty(),
            is_folded: false,
        }
    }

    open spec fn merged(
        model: LocationModel,
        field: FieldModel,
        budget: nat,
    ) -> Option<LocationModel> {
        if field.tag == 1 {
            match number_of(field.value) {
                None => None,
                Some(id) => Some(LocationModel { id, ..model }),
            }
        } else if field.tag == 2 {
            match number_of(field.value) {
                None => None,
                Some(mapping_id) => Some(LocationModel { mapping_id, ..model }),
            }
        } else if field.tag == 3 {
            match number_of(field.value) {
                None => None,
                Some(address) => Some(LocationModel { address, ..model }),
            }
        } else if field.tag == 4 {
            match nested::<Line>(field.value, budget) {
                None => None,
                Some(item) => Some(LocationModel { line: model.line.push(item), ..model }),
            }
        } else if field.tag == 5 {
            match number_of(field.value) {
                None => None,
                Some(number) => Some(LocationModel { is_folded: number != 0, ..model }),
            }
        } else {
            Some(model)
        }
    }

    open spec fn field_fault(tag: u32, wire: u8, bytes: Seq<u8>, budget: nat) -> Option<
        FaultModel,
    > {
        if tag == 1 {
            placed(number_fault(wire, bytes), "Location.id"@)
        } else if tag == 2 {
            placed(number_fault(wire, bytes), "Location.mapping_id"@)
        } else if tag == 3 {
            placed(number_fault(wire, bytes), "Location.address"@)
        } else if tag == 4 {
            nested_fault::<Line>(wire, bytes, budget, "Location.line"@)
        } else if tag == 5 {
            placed(number_fault(wire, bytes), "Location.is_folded"@)
        } else {
            unknown_fault(wire, tag, bytes, budget)
        }
    }

    open spec fn fields_model(model: LocationModel) -> Seq<FieldModel> {
        number_piece(1, model.id)
            + number_piece(2, model.mapping_id)
            + number_piece(3, model.address)
            + messages_piece::<Line>(4, model.line)
            + flag_piece(5, model.is_folded)
    }

    open spec fn height() -> nat {
        1
    }
}

impl WireMessage for Location {
    fn blank() -> (message: Self) {
        let message = Location {
            id: 0,
            mapping_id: 0,
            address: 0,
            line: Vec::new(),
            is_folded: false,
        };
        assert(message_models::<Line>(message.line@) =~= Seq::<LineModel>::empty());
        message
    }

    fn merge(&mut self, field: Field, budget: u32) -> (merged: Option<()>) {
        match field.tag {
            1 => {
                self.id = take_number(field.value)?;
            },
            2 => {
                self.mapping_id = take_number(field.value)?;
            },
            3 => {
                self.address = take_number(field.value)?;
            },
            4 => {
                let item = take_nested::<Line>(field.value, budget)?;
                self.line.push(item);
                assert(message_models::<Line>(self.line@)
                    =~= old(self).model().line.push(item.model()));
            },
            5 => {
                self.is_folded = take_number(field.value)? != 0;
            },
            _ => {},
        }
        Some(())
    }

    fn find_fault(tag: u32, wire: u8, bytes: &[u8], budget: u32) -> (fault: Option<DecodeFault>) {
        match tag {
            1 => find_number_fault(wire, bytes, "Location.id"),
            2 => find_number_fault(wire, bytes, "Location.mapping_id"),
            3 => find_number_fault(wire, bytes, "Location.address"),
            4 => find_nested_fault::<Line>(wire, bytes, budget, "Location.line"),
            5 => find_number_fault(wire, bytes, "Location.is_folded"),
            _ => find_unknown_fault(wire, tag, bytes, budget),
        }
    }

    fn fields(&self) -> (fields: Vec<Field>) {
        let mut fields: Vec<Field> = Vec::new();
        assert(field_models(fields@) =~= Seq::<FieldModel>::empty());
        put_number(&mut fields, 1, self.id);
        assert(field_models(fields@) =~= number_piece(1, self.model().id));
        put_number(&mut fields, 2, self.mapping_id);
        put_number(&mut fields, 3, self.address);
        put_messages(&mut fields, 4, &self.line);
        put_flag(&mut fields, 5, self.is_folded);
        fields
    }

    proof fn fields_rebuild(model: LocationModel, budget: nat) {
        let all = Self::fields_model(model);
        let blank = Self::blank_model();
        let p1 = number_piece(1, model.id);
        let s1 = p1;
        let p2 = number_piece(2, model.mapping_id);
        let s2 = s1 + p2;
        let p3 = number_piece(3, model.address);
        let s3 = s2 + p3;
        let p4 = messages_piece::<Line>(4, model.line);
        let s4 = s3 + p4;
        let p5 = flag_piece(5, model.is_folded);
        let s5 = s4 + p5;
        lemma_run_sizes(s4, p5);
        lemma_run_sizes(s3, p4);
        lemma_run_sizes(s2, p3);
        lemma_run_sizes(s1, p2);
        let m1 = LocationModel { id: model.id, ..blank };
        assert(declared(p1) && fold_fields::<Self>(blank, p1, budget) == Some(m1)) by {
            reveal(declared);
            lemma_fold_short::<Self>(blank, p1, budget);
        }
        let m2 = LocationModel { mapping_id: model.mapping_id, ..m1 };
        assert(declared(p2) && fold_fields::<Self>(m1, p2, budget) == Some(m2)) by {
            reveal(declared);
            lemma_fold_short::<Self>(m1, p2, budget);
        }
        lemma_fold_grow::<Self>(blank, s1, m1, p2, m2, budget);
        let m3 = LocationModel { address: model.address, ..m2 };
        assert(declared(p3) && fold_fields::<Self>(m2, p3, budget) == Some(m3)) by {
            reveal(declared);
            lemma_fold_short::<Self>(m2, p3, budget);
        }
        lemma_fold_grow::<Self>(blank, s2, m2, p3, m3, budget);
        let m4 = LocationModel { line: model.line, ..m3 };
        assert(declared(p4) && fold_fields::<Self>(m3, p4, budget) == Some(m4)) by {
            reveal(declared);
            let with = |items: Seq<LineModel>| LocationModel { line: items, ..m3 };
            assert forall|i: int| 0 <= i < model.line.len() implies
                Self::merged(with(model.line.take(i)), #[trigger] p4[i], budget)
                == Some(with(model.line.take(i + 1))) by {
                lemma_payload_within(p4, i);
                lemma_message_round_trip::<Line>(model.line[i], (budget - 1) as nat);
                assert(model.line.take(i).push(model.line[i]) =~= model.line.take(i + 1));
            }
            lemma_fold_repeated::<Self, LineModel>(p4, model.line, with, budget);
            assert(with(Seq::empty()) == m3);
        }
        lemma_fold_grow::<Self>(blank, s3, m3, p4, m4, budget);
        let m5 = LocationModel { is_folded: model.is_folded, ..m4 };
        assert(declared(p5) && fold_fields::<Self>(m4, p5, budget) == Some(m5)) by {
            reveal(declared);
            lemma_fold_short::<Self>(m4, p5, budget);
        }
        lemma_fold_grow::<Self>(blank, s4, m4, p5, m5, budget);
        assert(s5 == all);
        assert(m5 == model);
        lemma_declared_writable(all);
    }
}

impl Default for Location {
    fn default() -> (message: Self)
        ensures
            message.model() == Self::blank_model(),
    {
        Self::blank()
    }
}

/// A function, by places in the string table.
#[derive(Clone, Copy, Debug, PartialEq, Eq)]
pub struct Function {
    pub id: u64,
    pub name: i64,
    pub system_name: i64,
    pub filename: i64,
    pub start_line: i64,
}

/// Mathematical counterpart of [`Function`].
pub struct FunctionModel {
    pub id: u64,
    pub name: i64,
    pub system_name: i64,
    pub filename: i64,
    pub start_line: i64,
}

impl WireModel for Function {
    type Model = FunctionModel;

    open spec fn model(&self) -> FunctionModel {
        FunctionModel {
            id: self.id,
            name: self.name,
            system_name: self.system_name,
            filename: self.filename,
            start_line: self.start_line,
        }
    }

    open spec fn blank_model() -> FunctionModel {
        FunctionModel {
            id: 0,
            name: 0,
            system_name: 0,
            filename: 0,
            start_line: 0,
        }
    }

    open spec fn merged(
        model: FunctionModel,
        field: FieldModel,
        budget: nat,
    ) -> Option<FunctionModel> {
        if field.tag == 1 {
            match number_of(field.value) {
                None => None,
                Some(id) => Some(FunctionModel { id, ..model }),
            }
        } else if field.tag == 2 {
            match number_of(field.value) {
                None => None,
                Some(number) => Some(FunctionModel { name: from_wire(number), ..model }),
            }
        } else if field.tag == 3 {
            match number_of(field.value) {
                None => None,
                Some(number) => Some(FunctionModel { system_name: from_wire(number), ..model }),
            }
        } else if field.tag == 4 {
            match number_of(field.value) {
                None => None,
                Some(number) => Some(FunctionModel { filename: from_wire(number), ..model }),
            }
        } else if field.tag == 5 {
            match number_of(field.value) {
                None => None,
                Some(number) => Some(FunctionModel { start_line: from_wire(number), ..model }),
            }
        } else {
            Some(model)
        }
    }

    open spec fn field_fault(tag: u32, wire: u8, bytes: Seq<u8>, budget: nat) -> Option<
        FaultModel,
    > {
        if tag == 1 {
            placed(number_fault(wire, bytes), "Function.id"@)
        } else if tag == 2 {
            placed(number_fault(wire, bytes), "Function.name"@)
        } else if tag == 3 {
            placed(number_fault(wire, bytes), "Function.system_name"@)
        } else if tag == 4 {
            placed(number_fault(wire, bytes), "Function.filename"@)
        } else if tag == 5 {
            placed(number_fault(wire, bytes), "Function.start_line"@)
        } else {
            unknown_fault(wire, tag, bytes, budget)
        }
    }

    open spec fn fields_model(model: FunctionModel) -> Seq<FieldModel> {
        number_piece(1, model.id)
            + number_piece(2, to_wire(model.name))
            + number_piece(3, to_wire(model.system_name))
            + number_piece(4, to_wire(model.filename))
            + number_piece(5, to_wire(model.start_line))
    }

    open spec fn height() -> nat {
        0
    }
}

impl WireMessage for Function {
    fn blank() -> (message: Self) {
        let message = Function { id: 0, name: 0, system_name: 0, filename: 0, start_line: 0 };
        message
    }

    fn merge(&mut self, field: Field, budget: u32) -> (merged: Option<()>) {
        match field.tag {
            1 => {
                self.id = take_number(field.value)?;
            },
            2 => {
                self.name = signed_from_wire(take_number(field.value)?);
            },
            3 => {
                self.system_name = signed_from_wire(take_number(field.value)?);
            },
            4 => {
                self.filename = signed_from_wire(take_number(field.value)?);
            },
            5 => {
                self.start_line = signed_from_wire(take_number(field.value)?);
            },
            _ => {},
        }
        Some(())
    }

    fn find_fault(tag: u32, wire: u8, bytes: &[u8], budget: u32) -> (fault: Option<DecodeFault>) {
        match tag {
            1 => find_number_fault(wire, bytes, "Function.id"),
            2 => find_number_fault(wire, bytes, "Function.name"),
            3 => find_number_fault(wire, bytes, "Function.system_name"),
            4 => find_number_fault(wire, bytes, "Function.filename"),
            5 => find_number_fault(wire, bytes, "Function.start_line"),
            _ => find_unknown_fault(wire, tag, bytes, budget),
        }
    }

    fn fields(&self) -> (fields: Vec<Field>) {
        let mut fields: Vec<Field> = Vec::new();
        assert(field_models(fields@) =~= Seq::<FieldModel>::empty());
        put_number(&mut fields, 1, self.id);
        assert(field_models(fields@) =~= number_piece(1, self.model().id));
        put_number(&mut fields, 2, signed_to_wire(self.name));
        put_number(&mut fields, 3, signed_to_wire(self.system_name));
        put_number(&mut fields, 4, signed_to_wire(self.filename));
        put_number(&mut fields, 5, signed_to_wire(self.start_line));
        fields
    }

    proof fn fields_rebuild(model: FunctionModel, budget: nat) {
        let all = Self::fields_model(model);
        let blank = Self::blank_model();
        let p1 = number_piece(1, model.id);
        let s1 = p1;
        let p2 = number_piece(2, to_wire(model.name));
        let s2 = s1 + p2;
        let p3 = number_piece(3, to_wire(model.system_name));
        let s3 = s2 + p3;
        let p4 = number_piece(4, to_wire(model.filename));
        let s4 = s3 + p4;
        let p5 = number_piece(5, to_wire(model.start_line));
        let s5 = s4 + p5;
        lemma_run_sizes(s4, p5);
        lemma_run_sizes(s3, p4);
        lemma_run_sizes(s2, p3);
        lemma_run_sizes(s1, p2);
        let m1 = FunctionModel { id: model.id, ..blank };
        assert(declared(p1) && fold_fields::<Self>(blank, p1, budget) == Some(m1)) by {
            reveal(declared);
            lemma_fold_short::<Self>(blank, p1, budget);
        }
        let m2 = FunctionModel { name: model.name, ..m1 };
        assert(declared(p2) && fold_fields::<Self>(m1, p2, budget) == Some(m2)) by {
            reveal(declared);
            lemma_fold_short::<Self>(m1, p2, budget);
        }
        lemma_fold_grow::<Self>(blank, s1, m1, p2, m2, budget);
        let m3 = FunctionModel { system_name: model.system_name, ..m2 };
        assert(declared(p3) && fold_fields::<Self>(m2, p3, budget) == Some(m3)) by {
            reveal(declared);
            lemma_fold_short::<Self>(m2, p3, budget);
        }
        lemma_fold_grow::<Self>(blank, s2, m2, p3, m3, budget);
        let m4 = FunctionModel { filename: model.filename, ..m3 };
        assert(declared(p4) && fold_fields::<Self>(m3, p4, budget) == Some(m4)) by {
            reveal(declared);
            lemma_fold_short::<Self>(m3, p4, budget);
        }
        lemma_fold_grow::<Self>(blank, s3, m3, p4, m4, budget);
        let m5 = FunctionModel { start_line: model.start_line, ..m4 };
        assert(declared(p5) && fold_fields::<Self>(m4, p5, budget) == Some(m5)) by {
            reveal(declared);
            lemma_fold_short::<Self>(m4, p5, budget);
        }
        lemma_fold_grow::<Self>(blank, s4, m4, p5, m5, budget);
        assert(s5 == all);
        assert(m5 == model);
        lemma_declared_writable(all);
    }
}

impl Default for Function {
    fn default() -> (message: Self)
        ensures
            message.model() == Self::blank_model(),
    {
        Self::blank()
    }
}

/// A profile.
#[derive(Clone, Debug, PartialEq, Eq)]
pub struct Profile {
    pub sample_type: Vec<ValueType>,
    pub sample: Vec<Sample>,
    pub mapping: Vec<Mapping>,
    pub location: Vec<Location>,
    pub function: Vec<Function>,
    pub string_table: Vec<String>,
    pub drop_frames: i64,
    pub keep_frames: i64,
    pub time_nanos: i64,
    pub duration_nanos: i64,
    pub period_type: Option<ValueType>,
    pub period: i64,
    pub comment: Vec<i64>,
    pub default_sample_type: i64,
}

/// Mathematical counterpart of [`Profile`].
pub struct ProfileModel {
    pub sample_type: Seq<ValueTypeModel>,
    pub sample: Seq<SampleModel>,
    pub mapping: Seq<MappingModel>,
    pub location: Seq<LocationModel>,
    pub function: Seq<FunctionModel>,
    pub string_table: Seq<Seq<char>>,
    pub drop_frames: i64,
    pub keep_frames: i64,
    pub time_nanos: i64,
    pub duration_nanos: i64,
    pub period_type: Option<ValueTypeModel>,
    pub period: i64,
    pub comment: Seq<i64>,
    pub default_sample_type: i64,
}

impl WireModel for Profile {
    type Model = ProfileModel;

    open spec fn model(&self) -> ProfileModel {
        ProfileModel {
            sample_type: message_models::<ValueType>(self.sample_type@),
            sample: message_models::<Sample>(self.sample@),
            mapping: message_models::<Mapping>(self.mapping@),
            location: message_models::<Location>(self.location@),
            function: message_models::<Function>(self.function@),
            string_table: text_models(self.string_table@),
            drop_frames: self.drop_frames,
            keep_frames: self.keep_frames,
            time_nanos: self.time_nanos,
            duration_nanos: self.duration_nanos,
            period_type: optional_model::<ValueType>(self.period_type),
            period: self.period,
            comment: self.comment@,
            default_sample_type: self.default_sample_type,
        }
    }

    open spec fn blank_model() -> ProfileModel {
        ProfileModel {
            sample_type: Seq::empty(),
            sample: Seq::empty(),
            mapping: Seq::empty(),
            location: Seq::empty(),
            function: Seq::empty(),
            string_table: Seq::empty(),
            drop_frames: 0,
            keep_frames: 0,
            time_nanos: 0,
            duration_nanos: 0,
            period_type: None,
            period: 0,
            comment: Seq::empty(),
            default_sample_type: 0,
        }
    }

    open spec fn merged(
        model: ProfileModel,
        field: FieldModel,
        budget: nat,
    ) -> Option<ProfileModel> {
        if field.tag == 1 {
            match nested::<ValueType>(field.value, budget) {
                None => None,
                Some(item) => Some(
                    ProfileModel { sample_type: model.sample_type.push(item), ..model },
                ),
            }
        } else if field.tag == 2 {
            match nested::<Sample>(field.value, budget) {
                None => None,
                Some(item) => Some(ProfileModel { sample: model.sample.push(item), ..model }),
            }
        } else if field.tag == 3 {
            match nested::<Mapping>(field.value, budget) {
                None => None,
                Some(item) => Some(ProfileModel { mapping: model.mapping.push(item), ..model }),
            }
        } else if field.tag == 4 {
            match nested::<Location>(field.value, budget) {
                None => None,
                Some(item) => Some(ProfileModel { location: model.location.push(item), ..model }),
            }
        } else if field.tag == 5 {
            match nested::<Function>(field.value, budget) {
                None => None,
                Some(item) => Some(ProfileModel { function: model.function.push(item), ..model }),
            }
        } else if field.tag == 6 {
            match text_of(field.value) {
                None => None,
                Some(text) => Some(
                    ProfileModel { string_table: model.string_table.push(text), ..model },
                ),
            }
        } else if field.tag == 7 {
            match number_of(field.value) {
                None => None,
                Some(number) => Some(ProfileModel { drop_frames: from_wire(number), ..model }),
            }
        } else if field.tag == 8 {
            match number_of(field.value) {
                None => None,
                Some(number) => Some(ProfileModel { keep_frames: from_wire(number), ..model }),
            }
        } else if field.tag == 9 {
            match number_of(field.value) {
                None => None,
                Some(number) => Some(ProfileModel { time_nanos: from_wire(number), ..model }),
            }
        } else if field.tag == 10 {
            match number_of(field.value) {
                None => None,
                Some(number) => Some(ProfileModel { duration_nanos: from_wire(number), ..model }),
            }
        } else if field.tag == 11 {
            match nested_onto::<ValueType>(
                or_blank::<ValueType>(model.period_type),
                field.value,
                budget,
            ) {
                None => None,
                Some(item) => Some(ProfileModel { period_type: Some(item), ..model }),
            }
        } else if field.tag == 12 {
            match number_of(field.value) {
                None => None,
                Some(number) => Some(ProfileModel { period: from_wire(number), ..model }),
            }
        } else if field.tag == 13 {
            match numbers_of(field.value) {
                None => None,
                Some(numbers) => Some(
                    ProfileModel { comment: model.comment + unsigned_models(numbers), ..model },
                ),
            }
        } else if field.tag == 14 {
            match number_of(field.value) {
                None => None,
                Some(number) => Some(
                    ProfileModel { default_sample_type: from_wire(number), ..model },
                ),
            }
        } else {
            Some(model)
        }
    }

    open spec fn field_fault(tag: u32, wire: u8, bytes: Seq<u8>, budget: nat) -> Option<
        FaultModel,
    > {
        if tag == 1 {
            nested_fault::<ValueType>(wire, bytes, budget, "Profile.sample_type"@)
        } else if tag == 2 {
            nested_fault::<Sample>(wire, bytes, budget, "Profile.sample"@)
        } else if tag == 3 {
            nested_fault::<Mapping>(wire, bytes, budget, "Profile.mapping"@)
        } else if tag == 4 {
            nested_fault::<Location>(wire, bytes, budget, "Profile.location"@)
        } else if tag == 5 {
            nested_fault::<Function>(wire, bytes, budget, "Profile.function"@)
        } else if tag == 6 {
            placed(text_fault(wire, bytes), "Profile.string_table"@)
        } else if tag == 7 {
            placed(number_fault(wire, bytes), "Profile.drop_frames"@)
        } else if tag == 8 {
            placed(number_fault(wire, bytes), "Profile.keep_frames"@)
        } else if tag == 9 {
            placed(number_fault(wire, bytes), "Profile.time_nanos"@)
        } else if tag == 10 {
            placed(number_fault(wire, bytes), "Profile.duration_nanos"@)
        } else if tag == 11 {
            nested_fault::<ValueType>(wire, bytes, budget, "Profile.period_type"@)
        } else if tag == 12 {
            placed(number_fault(wire, bytes), "Profile.period"@)
        } else if tag == 13 {
            placed(packed_fault(wire, bytes), "Profile.comment"@)
        } else if tag == 14 {
            placed(number_fault(wire, bytes), "Profile.default_sample_type"@)
        } else {
            unknown_fault(wire, tag, bytes, budget)
        }
    }

    open spec fn fields_model(model: ProfileModel) -> Seq<FieldModel> {
        messages_piece::<ValueType>(1, model.sample_type)
            + messages_piece::<Sample>(2, model.sample)
            + messages_piece::<Mapping>(3, model.mapping)
            + messages_piece::<Location>(4, model.location)
            + messages_piece::<Function>(5, model.function)
            + texts_piece(6, model.string_table)
            + number_piece(7, to_wire(model.drop_frames))
            + number_piece(8, to_wire(model.keep_frames))
            + number_piece(9, to_wire(model.time_nanos))
            + number_piece(10, to_wire(model.duration_nanos))
            + optional_message_piece::<ValueType>(11, model.period_type)
            + number_piece(12, to_wire(model.period))
            + packed_piece(13, signed_models(model.comment))
            + number_piece(14, to_wire(model.default_sample_type))
    }

    open spec fn height() -> nat {
        2
    }
}

impl WireMessage for Profile {
    fn blank() -> (message: Self) {
        let message = Profile {
            sample_type: Vec::new(),
            sample: Vec::new(),
            mapping: Vec::new(),
            location: Vec::new(),
            function: Vec::new(),
            string_table: Vec::new(),
            drop_frames: 0,
            keep_frames: 0,
            time_nanos: 0,
            duration_nanos: 0,
            period_type: None,
            period: 0,
            comment: Vec::new(),
            default_sample_type: 0,
        };
        assert(message_models::<ValueType>(message.sample_type@)
            =~= Seq::<ValueTypeModel>::empty());
        assert(message_models::<Sample>(message.sample@) =~= Seq::<SampleModel>::empty());
        assert(message_models::<Mapping>(message.mapping@) =~= Seq::<MappingModel>::empty());
        assert(message_models::<Location>(message.location@) =~= Seq::<LocationModel>::empty());
        assert(message_models::<Function>(message.function@) =~= Seq::<FunctionModel>::empty());
        assert(text_models(message.string_table@) =~= Seq::<Seq<char>>::empty());
        assert(message.comment@ =~= Seq::<i64>::empty());
        message
    }

    fn merge(&mut self, field: Field, budget: u32) -> (merged: Option<()>) {
        match field.tag {
            1 => {
                let item = take_nested::<ValueType>(field.value, budget)?;
                self.sample_type.push(item);
                assert(message_models::<ValueType>(self.sample_type@)
                    =~= old(self).model().sample_type.push(item.model()));
            },
            2 => {
                let item = take_nested::<Sample>(field.value, budget)?;
                self.sample.push(item);
                assert(message_models::<Sample>(self.sample@)
                    =~= old(self).model().sample.push(item.model()));
            },
            3 => {
                let item = take_nested::<Mapping>(field.value, budget)?;
                self.mapping.push(item);
                assert(message_models::<Mapping>(self.mapping@)
                    =~= old(self).model().mapping.push(item.model()));
            },
            4 => {
                let item = take_nested::<Location>(field.value, budget)?;
                self.location.push(item);
                assert(message_models::<Location>(self.location@)
                    =~= old(self).model().location.push(item.model()));
            },
            5 => {
                let item = take_nested::<Function>(field.value, budget)?;
                self.function.push(item);
                assert(message_models::<Function>(self.function@)
                    =~= old(self).model().function.push(item.model()));
            },
            6 => {
                let text = take_text(field.value)?;
                self.string_table.push(text);
                assert(text_models(self.string_table@)
                    =~= old(self).model().string_table.push(text@));
            },
            7 => {
                self.drop_frames = signed_from_wire(take_number(field.value)?);
            },
            8 => {
                self.keep_frames = signed_from_wire(take_number(field.value)?);
            },
            9 => {
                self.time_nanos = signed_from_wire(take_number(field.value)?);
            },
            10 => {
                self.duration_nanos = signed_from_wire(take_number(field.value)?);
            },
            11 => {
                let mut item = match self.period_type {
                    Some(item) => item,
                    None => ValueType::blank(),
                };
                merge_nested(&mut item, field.value, budget)?;
                self.period_type = Some(item);
            },
            12 => {
                self.period = signed_from_wire(take_number(field.value)?);
            },
            13 => {
                extend_signed(&mut self.comment, field.value)?;
            },
            14 => {
                self.default_sample_type = signed_from_wire(take_number(field.value)?);
            },
            _ => {},
        }
        Some(())
    }

    fn find_fault(tag: u32, wire: u8, bytes: &[u8], budget: u32) -> (fault: Option<DecodeFault>) {
        match tag {
            1 => find_nested_fault::<ValueType>(wire, bytes, budget, "Profile.sample_type"),
            2 => find_nested_fault::<Sample>(wire, bytes, budget, "Profile.sample"),
            3 => find_nested_fault::<Mapping>(wire, bytes, budget, "Profile.mapping"),
            4 => find_nested_fault::<Location>(wire, bytes, budget, "Profile.location"),
            5 => find_nested_fault::<Function>(wire, bytes, budget, "Profile.function"),
            6 => find_text_fault(wire, bytes, "Profile.string_table"),
            7 => find_number_fault(wire, bytes, "Profile.drop_frames"),
            8 => find_number_fault(wire, bytes, "Profile.keep_frames"),
            9 => find_number_fault(wire, bytes, "Profile.time_nanos"),
            10 => find_number_fault(wire, bytes, "Profile.duration_nanos"),
            11 => find_nested_fault::<ValueType>(wire, bytes, budget, "Profile.period_type"),
            12 => find_number_fault(wire, bytes, "Profile.period"),
            13 => find_packed_fault(wire, bytes, "Profile.comment"),
            14 => find_number_fault(wire, bytes, "Profile.default_sample_type"),
            _ => find_unknown_fault(wire, tag, bytes, budget),
        }
    }

    fn fields(&self) -> (fields: Vec<Field>) {
        let mut fields: Vec<Field> = Vec::new();
        assert(field_models(fields@) =~= Seq::<FieldModel>::empty());
        put_messages(&mut fields, 1, &self.sample_type);
        assert(field_models(fields@) =~= messages_piece::<ValueType>(1, self.model().sample_type));
        put_messages(&mut fields, 2, &self.sample);
        put_messages(&mut fields, 3, &self.mapping);
        put_messages(&mut fields, 4, &self.location);
        put_messages(&mut fields, 5, &self.function);
        put_texts(&mut fields, 6, &self.string_table);
        put_number(&mut fields, 7, signed_to_wire(self.drop_frames));
        put_number(&mut fields, 8, signed_to_wire(self.keep_frames));
        put_number(&mut fields, 9, signed_to_wire(self.time_nanos));
        put_number(&mut fields, 10, signed_to_wire(self.duration_nanos));
        put_optional_message(&mut fields, 11, &self.period_type);
        put_number(&mut fields, 12, signed_to_wire(self.period));
        put_packed_signed(&mut fields, 13, &self.comment);
        put_number(&mut fields, 14, signed_to_wire(self.default_sample_type));
        fields
    }

    proof fn fields_rebuild(model: ProfileModel, budget: nat) {
        let all = Self::fields_model(model);
        let blank = Self::blank_model();
        let p1 = messages_piece::<ValueType>(1, model.sample_type);
        let s1 = p1;
        let p2 = messages_piece::<Sample>(2, model.sample);
        let s2 = s1 + p2;
        let p3 = messages_piece::<Mapping>(3, model.mapping);
        let s3 = s2 + p3;
        let p4 = messages_piece::<Location>(4, model.location);
        let s4 = s3 + p4;
        let p5 = messages_piece::<Function>(5, model.function);
        let s5 = s4 + p5;
        let p6 = texts_piece(6, model.string_table);
        let s6 = s5 + p6;
        let p7 = number_piece(7, to_wire(model.drop_frames));
        let s7 = s6 + p7;
        let p8 = number_piece(8, to_wire(model.keep_frames));
        let s8 = s7 + p8;
        let p9 = number_piece(9, to_wire(model.time_nanos));
        let s9 = s8 + p9;
        let p10 = number_piece(10, to_wire(model.duration_nanos));
        let s10 = s9 + p10;
        let p11 = optional_message_piece::<ValueType>(11, model.period_type);
        let s11 = s10 + p11;
        let p12 = number_piece(12, to_wire(model.period));
        let s12 = s11 + p12;
        let p13 = packed_piece(13, signed_models(model.comment));
        let s13 = s12 + p13;
        let p14 = number_piece(14, to_wire(model.default_sample_type));
        let s14 = s13 + p14;
        lemma_run_sizes(s13, p14);
        lemma_run_sizes(s12, p13);
        lemma_run_sizes(s11, p12);
        lemma_run_sizes(s10, p11);
        lemma_run_sizes(s9, p10);
        lemma_run_sizes(s8, p9);
        lemma_run_sizes(s7, p8);
        lemma_run_sizes(s6, p7);
        lemma_run_sizes(s5, p6);
        lemma_run_sizes(s4, p5);
        lemma_run_sizes(s3, p4);
        lemma_run_sizes(s2, p3);
        lemma_run_sizes(s1, p2);
        let m1 = ProfileModel { sample_type: model.sample_type, ..blank };
        assert(declared(p1) && fold_fields::<Self>(blank, p1, budget) == Some(m1)) by {
            reveal(declared);
            let with = |items: Seq<ValueTypeModel>| ProfileModel { sample_type: items, ..blank };
            assert forall|i: int| 0 <= i < model.sample_type.len() implies
                Self::merged(with(model.sample_type.take(i)), #[trigger] p1[i], budget)
                == Some(with(model.sample_type.take(i + 1))) by {
                lemma_payload_within(p1, i);
                lemma_message_round_trip::<ValueType>(model.sample_type[i], (budget - 1) as nat);
                assert(model.sample_type.take(i).push(model.sample_type[i])
                    =~= model.sample_type.take(i + 1));
            }
            lemma_fold_repeated::<Self, ValueTypeModel>(p1, model.sample_type, with, budget);
            assert(with(Seq::empty()) == blank);
        }
        let m2 = ProfileModel { sample: model.sample, ..m1 };
        assert(declared(p2) && fold_fields::<Self>(m1, p2, budget) == Some(m2)) by {
            reveal(declared);
            let with = |items: Seq<SampleModel>| ProfileModel { sample: items, ..m1 };
            assert forall|i: int| 0 <= i < model.sample.len() implies
                Self::merged(with(model.sample.take(i)), #[trigger] p2[i], budget)
                == Some(with(model.sample.take(i + 1))) by {
                lemma_payload_within(p2, i);
                lemma_message_round_trip::<Sample>(model.sample[i], (budget - 1) as nat);
                assert(model.sample.take(i).push(model.sample[i]) =~= model.sample.take(i + 1));
            }
            lemma_fold_repeated::<Self, SampleModel>(p2, model.sample, with, budget);
            assert(with(Seq::empty()) == m1);
        }
        lemma_fold_grow::<Self>(blank, s1, m1, p2, m2, budget);
        let m3 = ProfileModel { mapping: model.mapping, ..m2 };
        assert(declared(p3) && fold_fields::<Self>(m2, p3, budget) == Some(m3)) by {
            reveal(declared);
            let with = |items: Seq<MappingModel>| ProfileModel { mapping: items, ..m2 };
            assert forall|i: int| 0 <= i < model.mapping.len() implies
                Self::merged(with(model.mapping.take(i)), #[trigger] p3[i], budget)
                == Some(with(model.mapping.take(i + 1))) by {
                lemma_payload_within(p3, i);
                lemma_message_round_trip::<Mapping>(model.mapping[i], (budget - 1) as nat);
                assert(model.mapping.take(i).push(model.mapping[i]) =~= model.mapping.take(i + 1));
            }
            lemma_fold_repeated::<Self, MappingModel>(p3, model.mapping, with, budget);
            assert(with(Seq::empty()) == m2);
        }
        lemma_fold_grow::<Self>(blank, s2, m2, p3, m3, budget);
        let m4 = ProfileModel { location: model.location, ..m3 };
        assert(declared(p4) && fold_fields::<Self>(m3, p4, budget) == Some(m4)) by {
            reveal(declared);
            let with = |items: Seq<LocationModel>| ProfileModel { location: items, ..m3 };
            assert forall|i: int| 0 <= i < model.location.len() implies
                Self::merged(with(model.location.take(i)), #[trigger] p4[i], budget)
                == Some(with(model.location.take(i + 1))) by {
                lemma_payload_within(p4, i);
                lemma_message_round_trip::<Location>(model.location[i], (budget - 1) as nat);
                assert(model.location.take(i).push(model.location[i])
                    =~= model.location.take(i + 1));
            }
            lemma_fold_repeated::<Self, LocationModel>(p4, model.location, with, budget);
            assert(with(Seq::empty()) == m3);
        }
        lemma_fold_grow::<Self>(blank, s3, m3, p4, m4, budget);
        let m5 = ProfileModel { function: model.function, ..m4 };
        assert(declared(p5) && fold_fields::<Self>(m4, p5, budget) == Some(m5)) by {
            reveal(declared);
            let with = |items: Seq<FunctionModel>| ProfileModel { function: items, ..m4 };
            assert forall|i: int| 0 <= i < model.function.len() implies
                Self::merged(with(model.function.take(i)), #[trigger] p5[i], budget)
                == Some(with(model.function.take(i + 1))) by {
                lemma_payload_within(p5, i);
                lemma_message_round_trip::<Function>(model.function[i], (budget - 1) as nat);
                assert(model.function.take(i).push(model.function[i])
                    =~= model.function.take(i + 1));
            }
            lemma_fold_repeated::<Self, FunctionModel>(p5, model.function, with, budget);
            assert(with(Seq::empty()) == m4);
        }
        lemma_fold_grow::<Self>(blank, s4, m4, p5, m5, budget);
        let m6 = ProfileModel { string_table: model.string_table, ..m5 };
        assert(declared(p6) && fold_fields::<Self>(m5, p6, budget) == Some(m6)) by {
            reveal(declared);
            let with = |items: Seq<Seq<char>>| ProfileModel { string_table: items, ..m5 };
            assert forall|i: int| 0 <= i < model.string_table.len() implies
                Self::merged(with(model.string_table.take(i)), #[trigger] p6[i], budget)
                == Some(with(model.string_table.take(i + 1))) by {
                lemma_text(model.string_table[i]);
                assert(model.string_table.take(i).push(model.string_table[i])
                    =~= model.string_table.take(i + 1));
            }
            lemma_fold_repeated::<Self, Seq<char>>(p6, model.string_table, with, budget);
            assert(with(Seq::empty()) == m5);
        }
        lemma_fold_grow::<Self>(blank, s5, m5, p6, m6, budget);
        let m7 = ProfileModel { drop_frames: model.drop_frames, ..m6 };
        assert(declared(p7) && fold_fields::<Self>(m6, p7, budget) == Some(m7)) by {
            reveal(declared);
            lemma_fold_short::<Self>(m6, p7, budget);
        }
        lemma_fold_grow::<Self>(blank, s6, m6, p7, m7, budget);
        let m8 = ProfileModel { keep_frames: model.keep_frames, ..m7 };
        assert(declared(p8) && fold_fields::<Self>(m7, p8, budget) == Some(m8)) by {
            reveal(declared);
            lemma_fold_short::<Self>(m7, p8, budget);
        }
        lemma_fold_grow::<Self>(blank, s7, m7, p8, m8, budget);
        let m9 = ProfileModel { time_nanos: model.time_nanos, ..m8 };
        assert(declared(p9) && fold_fields::<Self>(m8, p9, budget) == Some(m9)) by {
            reveal(declared);
            lemma_fold_short::<Self>(m8, p9, budget);
        }
        lemma_fold_grow::<Self>(blank, s8, m8, p9, m9, budget);
        let m10 = ProfileModel { duration_nanos: model.duration_nanos, ..m9 };
        assert(declared(p10) && fold_fields::<Self>(m9, p10, budget) == Some(m10)) by {
            reveal(declared);
            lemma_fold_short::<Self>(m9, p10, budget);
        }
        lemma_fold_grow::<Self>(blank, s9, m9, p10, m10, budget);
        let m11 = ProfileModel { period_type: model.period_type, ..m10 };
        assert(declared(p11) && fold_fields::<Self>(m10, p11, budget) == Some(m11)) by {
            reveal(declared);
            if model.period_type is Some {
                lemma_payload_within(p11, 0);
                lemma_message_round_trip::<ValueType>(
                    model.period_type->Some_0, (budget - 1) as nat,
                );
            }
            lemma_fold_short::<Self>(m10, p11, budget);
        }
        lemma_fold_grow::<Self>(blank, s10, m10, p11, m11, budget);
        let m12 = ProfileModel { period: model.period, ..m11 };
        assert(declared(p12) && fold_fields::<Self>(m11, p12, budget) == Some(m12)) by {
            reveal(declared);
            lemma_fold_short::<Self>(m11, p12, budget);
        }
        lemma_fold_grow::<Self>(blank, s11, m11, p12, m12, budget);
        let m13 = ProfileModel { comment: model.comment, ..m12 };
        assert(declared(p13) && fold_fields::<Self>(m12, p13, budget) == Some(m13)) by {
            reveal(declared);
            lemma_signed_round_trip(model.comment);
            lemma_varints_round_trip(signed_models(model.comment));
            assert(m12.comment + model.comment =~= model.comment);
            lemma_fold_short::<Self>(m12, p13, budget);
        }
        lemma_fold_grow::<Self>(blank, s12, m12, p13, m13, budget);
        let m14 = ProfileModel { default_sample_type: model.default_sample_type, ..m13 };
        assert(declared(p14) && fold_fields::<Self>(m13, p14, budget) == Some(m14)) by {
            reveal(declared);
            lemma_fold_short::<Self>(m13, p14, budget);
        }
        lemma_fold_grow::<Self>(blank, s13, m13, p14, m14, budget);
        assert(s14 == all);
        assert(m14 == model);
        lemma_declared_writable(all);
    }
}

impl Default for Profile {
    fn default() -> (message: Self)
        ensures
            message.model() == Self::blank_model(),
    {
        Self::blank()
    }
}

impl Profile {
    /// This profile in bytes.
    pub fn encode(&self) -> (bytes: Vec<u8>)
        ensures
            bytes@ == encoded::<Profile>(self.model()),
    {
        encode_message(self)
    }

    /// The profile that `bytes` stand for.
    pub fn decode(bytes: &[u8]) -> (profile: Result<Self, DecodeFault>)
        ensures
            match profile {
                Ok(profile) => decoded::<Profile>(bytes@, RECURSION_LIMIT as nat) == Some(
                    profile.model(),
                ),
                Err(fault) => decoded::<Profile>(bytes@, RECURSION_LIMIT as nat) is None
                    && decode_fault::<Profile>(bytes@, RECURSION_LIMIT as nat) == Some(fault@),
            },
    {
        decode_message::<Profile>(bytes, RECURSION_LIMIT)
    }
}

/// A profile that was written is read back as it was.
pub proof fn profile_round_trip(profile: ProfileModel)
    requires
        encoded::<Profile>(profile).len() <= u64::MAX,
    ensures
        decoded::<Profile>(encoded::<Profile>(profile), RECURSION_LIMIT as nat) == Some(profile),
{
    lemma_message_round_trip::<Profile>(profile, RECURSION_LIMIT as nat);
}

// ---------------------------------------------------------------------------
// The published numbers of fields
// ---------------------------------------------------------------------------

/// A field of a `ValueType` sets the member that its published number stands for, and no other.
pub proof fn value_type_fields_are_known_by_number(
    model: ValueTypeModel,
    signed: i64,
    bytes: Seq<u8>,
    value: ValueModel,
    other: u32,
    budget: nat,
)
    ensures
        ValueType::merged(
            model,
            (
                FieldModel {
                    tag: 1,
                    value: ValueModel::Varint(
                        (
                            (
                                if signed < 0 {
                                    signed + 0x1_0000_0000_0000_0000
                                } else { signed as int }
                            ) as u64
                        ),
                    ),
                }
            ),
            budget,
        ) == Some(ValueTypeModel { type_: signed, ..model }),
        ValueType::merged(
            model,
            (FieldModel { tag: 1, value: ValueModel::Bytes(bytes) }),
            budget,
        ) is None,
        ValueType::merged(
            model,
            (
                FieldModel {
                    tag: 2,
                    value: ValueModel::Varint(
                        (
                            (
                                if signed < 0 {
                                    signed + 0x1_0000_0000_0000_0000
                                } else { signed as int }
                            ) as u64
                        ),
                    ),
                }
            ),
            budget,
        ) == Some(ValueTypeModel { unit: signed, ..model }),
        ValueType::merged(
            model,
            (FieldModel { tag: 2, value: ValueModel::Bytes(bytes) }),
            budget,
        ) is None,
        other == 0 || other > 2 ==> ValueType::merged(
            model,
            (FieldModel { tag: other, value }),
            budget,
        ) == Some(model),
        1 <= other <= 2 ==> ValueType::merged(
            model,
            (FieldModel { tag: other, value: ValueModel::Other }),
            budget,
        ) is None,
{
}

/// A `ValueType` is written with every member under its published number, and with nothing under
/// any other.
pub proof fn value_type_members_are_written_by_number(model: ValueTypeModel, other: u32)
    ensures
        payloads(ValueType::fields_model(model), 1) == (
            if model.type_ == 0 { Seq::empty() } else {
                seq![
                    ValueModel::Varint(
                        (
                            (
                                if model.type_ < 0 {
                                    model.type_ + 0x1_0000_0000_0000_0000
                                } else { model.type_ as int }
                            ) as u64
                        ),
                    ),
                ]
            }
        ),
        payloads(ValueType::fields_model(model), 2) == (
            if model.unit == 0 { Seq::empty() } else {
                seq![
                    ValueModel::Varint(
                        (
                            (
                                if model.unit < 0 {
                                    model.unit + 0x1_0000_0000_0000_0000
                                } else { model.unit as int }
                            ) as u64
                        ),
                    ),
                ]
            }
        ),
        other == 0 || other > 2 ==> payloads(
            ValueType::fields_model(model),
            other,
        ) == Seq::<ValueModel>::empty(),
{
    let p0 = number_piece(1, to_wire(model.type_));
    lemma_payloads_uniform(p0, 1);
    let p1 = number_piece(2, to_wire(model.unit));
    lemma_payloads_uniform(p1, 2);
    let s1 = p0 + p1;
    lemma_payloads_concat(p0, p1);
    assert(ValueType::fields_model(model) == s1);
    assert(
        payloads(ValueType::fields_model(model), 1) =~= (
            if model.type_ == 0 { Seq::empty() } else {
                seq![
                    ValueModel::Varint(
                        (
                            (
                                if model.type_ < 0 {
                                    model.type_ + 0x1_0000_0000_0000_0000
                                } else { model.type_ as int }
                            ) as u64
                        ),
                    ),
                ]
            }
        )
    );
    assert(
        payloads(ValueType::fields_model(model), 2) =~= (
            if model.unit == 0 { Seq::empty() } else {
                seq![
                    ValueModel::Varint(
                        (
                            (
                                if model.unit < 0 {
                                    model.unit + 0x1_0000_0000_0000_0000
                                } else { model.unit as int }
                            ) as u64
                        ),
                    ),
                ]
            }
        )
    );
    if other == 0 || other > 2 {
        assert(payloads(ValueType::fields_model(model), other) =~= Seq::<ValueModel>::empty());
    }
}

/// What a `ValueType` shows is what its members are.
pub proof fn value_type_shows_its_members(message: ValueType)
    ensures
        message.model().type_ == message.type_,
        message.model().unit == message.unit,
{
}

/// A field of a `Label` sets the member that its published number stands for, and no other.
pub proof fn label_fields_are_known_by_number(
    model: LabelModel,
    signed: i64,
    bytes: Seq<u8>,
    value: ValueModel,
    other: u32,
    budget: nat,
)
    ensures
        Label::merged(
            model,
            (
                FieldModel {
                    tag: 1,
                    value: ValueModel::Varint(
                        (
                            (
                                if signed < 0 {
                                    signed + 0x1_0000_0000_0000_0000
                                } else { signed as int }
                            ) as u64
                        ),
                    ),
                }
            ),
            budget,
        ) == Some(LabelModel { key: signed, ..model }),
        Label::merged(
            model,
            (FieldModel { tag: 1, value: ValueModel::Bytes(bytes) }),
            budget,
        ) is None,
        Label::merged(
            model,
            (
                FieldModel {
                    tag: 2,
                    value: ValueModel::Varint(
                        (
                            (
                                if signed < 0 {
                                    signed + 0x1_0000_0000_0000_0000
                                } else { signed as int }
                            ) as u64
                        ),
                    ),
                }
            ),
            budget,
        ) == Some(LabelModel { str: signed, ..model }),
        Label::merged(
            model,
            (FieldModel { tag: 2, value: ValueModel::Bytes(bytes) }),
            budget,
        ) is None,
        Label::merged(
            model,
            (
                FieldModel {
                    tag: 3,
                    value: ValueModel::Varint(
                        (
                            (
                                if signed < 0 {
                                    signed + 0x1_0000_0000_0000_0000
                                } else { signed as int }
                            ) as u64
                        ),
                    ),
                }
            ),
            budget,
        ) == Some(LabelModel { num: signed, ..model }),
        Label::merged(
            model,
            (FieldModel { tag: 3, value: ValueModel::Bytes(bytes) }),
            budget,
        ) is None,
        Label::merged(
            model,
            (
                FieldModel {
                    tag: 4,
                    value: ValueModel::Varint(
                        (
                            (
                                if signed < 0 {
                                    signed + 0x1_0000_0000_0000_0000
                                } else { signed as int }
                            ) as u64
                        ),
                    ),
                }
            ),
            budget,
        ) == Some(LabelModel { num_unit: signed, ..model }),
        Label::merged(
            model,
            (FieldModel { tag: 4, value: ValueModel::Bytes(bytes) }),
            budget,
        ) is None,
        other == 0 || other > 4 ==> Label::merged(
            model,
            (FieldModel { tag: other, value }),
            budget,
        ) == Some(model),
        1 <= other <= 4 ==> Label::merged(
            model,
            (FieldModel { tag: other, value: ValueModel::Other }),
            budget,
        ) is None,
{
}

/// A `Label` is written with every member under its published number, and with nothing under
/// any other.
pub proof fn label_members_are_written_by_number(model: LabelModel, other: u32)
    ensures
        payloads(Label::fields_model(model), 1) == (
            if model.key == 0 { Seq::empty() } else {
                seq![
                    ValueModel::Varint(
                        (
                            (
                                if model.key < 0 {
                                    model.key + 0x1_0000_0000_0000_0000
                                } else { model.key as int }
                            ) as u64
                        ),
                    ),
                ]
            }
        ),
        payloads(Label::fields_model(model), 2) == (
            if model.str == 0 { Seq::empty() } else {
                seq![
                    ValueModel::Varint(
                        (
                            (
                                if model.str < 0 {
                                    model.str + 0x1_0000_0000_0000_0000
                                } else { model.str as int }
                            ) as u64
                        ),
                    ),
                ]
            }
        ),
        payloads(Label::fields_model(model), 3) == (
            if model.num == 0 { Seq::empty() } else {
                seq![
                    ValueModel::Varint(
                        (
                            (
                                if model.num < 0 {
                                    model.num + 0x1_0000_0000_0000_0000
                                } else { model.num as int }
                            ) as u64
                        ),
                    ),
                ]
            }
        ),
        payloads(Label::fields_model(model), 4) == (
            if model.num_unit == 0 { Seq::empty() } else {
                seq![
                    ValueModel::Varint(
                        (
                            (
                                if model.num_unit < 0 {
                                    model.num_unit + 0x1_0000_0000_0000_0000
                                } else { model.num_unit as int }
                            ) as u64
                        ),
                    ),
                ]
            }
        ),
        other == 0 || other > 4 ==> payloads(
            Label::fields_model(model),
            other,
        ) == Seq::<ValueModel>::empty(),
{
    let p0 = number_piece(1, to_wire(model.key));
    lemma_payloads_uniform(p0, 1);
    let p1 = number_piece(2, to_wire(model.str));
    lemma_payloads_uniform(p1, 2);
    let p2 = number_piece(3, to_wire(model.num));
    lemma_payloads_uniform(p2, 3);
    let p3 = number_piece(4, to_wire(model.num_unit));
    lemma_payloads_uniform(p3, 4);
    let s1 = p0 + p1;
    lemma_payloads_concat(p0, p1);
    let s2 = s1 + p2;
    lemma_payloads_concat(s1, p2);
    let s3 = s2 + p3;
    lemma_payloads_concat(s2, p3);
    assert(Label::fields_model(model) == s3);
    assert(
        payloads(Label::fields_model(model), 1) =~= (
            if model.key == 0 { Seq::empty() } else {
                seq![
                    ValueModel::Varint(
                        (
                            (
                                if model.key < 0 {
                                    model.key + 0x1_0000_0000_0000_0000
                                } else { model.key as int }
                            ) as u64
                        ),
                    ),
                ]
            }
        )
    );
    assert(
        payloads(Label::fields_model(model), 2) =~= (
            if model.str == 0 { Seq::empty() } else {
                seq![
                    ValueModel::Varint(
                        (
                            (
                                if model.str < 0 {
                                    model.str + 0x1_0000_0000_0000_0000
                                } else { model.str as int }
                            ) as u64
                        ),
                    ),
                ]
            }
        )
    );
    assert(
        payloads(Label::fields_model(model), 3) =~= (
            if model.num == 0 { Seq::empty() } else {
                seq![
                    ValueModel::Varint(
                        (
                            (
                                if model.num < 0 {
                                    model.num + 0x1_0000_0000_0000_0000
                                } else { model.num as int }
                            ) as u64
                        ),
                    ),
                ]
            }
        )
    );
    assert(
        payloads(Label::fields_model(model), 4) =~= (
            if model.num_unit == 0 { Seq::empty() } else {
                seq![
                    ValueModel::Varint(
                        (
                            (
                                if model.num_unit < 0 {
                                    model.num_unit + 0x1_0000_0000_0000_0000
                                } else { model.num_unit as int }
                            ) as u64
                        ),
                    ),
                ]
            }
        )
    );
    if other == 0 || other > 4 {
        assert(payloads(Label::fields_model(model), other) =~= Seq::<ValueModel>::empty());
    }
}

/// What a `Label` shows is what its members are.
pub proof fn label_shows_its_members(message: Label)
    ensures
        message.model().key == message.key,
        message.model().str == message.str,
        message.model().num == message.num,
        message.model().num_unit == message.num_unit,
{
}

/// A field of a `Sample` sets the member that its published number stands for, and no other.
pub proof fn sample_fields_are_known_by_number(
    model: SampleModel,
    number: u64,
    list: Seq<u64>,
    signed: i64,
    signed_list: Seq<i64>,
    bytes: Seq<u8>,
    value: ValueModel,
    other: u32,
    budget: nat,
)
    ensures
        Sample::merged(
            model,
            (FieldModel { tag: 1, value: ValueModel::Varint(number) }),
            budget,
        ) == Some(SampleModel { location_id: model.location_id.push(number), ..model }),
        Sample::merged(
            model,
            (FieldModel { tag: 1, value: ValueModel::Bytes(varints(list)) }),
            budget,
        ) == Some(SampleModel { location_id: model.location_id + list, ..model }),
        Sample::merged(
            model,
            (
                FieldModel {
                    tag: 2,
                    value: ValueModel::Varint(
                        (
                            (
                                if signed < 0 {
                                    signed + 0x1_0000_0000_0000_0000
                                } else { signed as int }
                            ) as u64
                        ),
                    ),
                }
            ),
            budget,
        ) == Some(SampleModel { value: model.value.push(signed), ..model }),
        Sample::merged(
            model,
            (
                FieldModel {
                    tag: 2,
                    value: ValueModel::Bytes(
                        varints(
                            Seq::new(
                                signed_list.len(),
                                |i: int|
                                    (
                                        (
                                            if signed_list[i] < 0 {
                                                signed_list[i] + 0x1_0000_0000_0000_0000
                                            } else { signed_list[i] as int }
                                        ) as u64
                                    ),
                            ),
                        ),
                    ),
                }
            ),
            budget,
        ) == Some(SampleModel { value: model.value + signed_list, ..model }),
        Sample::merged(
            model,
            (FieldModel { tag: 3, value: ValueModel::Varint(number) }),
            budget,
        ) is None,
        budget > 0 && decoded::<Label>(bytes, (budget - 1) as nat) is Some ==> Sample::merged(
            model,
            (FieldModel { tag: 3, value: ValueModel::Bytes(bytes) }),
            budget,
        ) == Some(
            SampleModel {
                label: model.label.push(decoded::<Label>(bytes, (budget - 1) as nat)->Some_0),
                ..model
            },
        ),
        budget > 0 && decoded::<Label>(bytes, (budget - 1) as nat) is None ==> Sample::merged(
            model,
            (FieldModel { tag: 3, value: ValueModel::Bytes(bytes) }),
            budget,
        ) is None,
        other == 0 || other > 3 ==> Sample::merged(
            model,
            (FieldModel { tag: other, value }),
            budget,
        ) == Some(model),
        1 <= other <= 3 ==> Sample::merged(
            model,
            (FieldModel { tag: other, value: ValueModel::Other }),
            budget,
        ) is None,
{
    lemma_varints_round_trip(list);
    assert(model.location_id + seq![number] =~= model.location_id.push(number));
    lemma_signed_round_trip(signed_list);
    lemma_varints_round_trip(signed_models(signed_list));
    assert(
        Seq::new(
            signed_list.len(),
            |i: int|
                (
                    (
                        if signed_list[i] < 0 {
                            signed_list[i] + 0x1_0000_0000_0000_0000
                        } else { signed_list[i] as int }
                    ) as u64
                ),
        ) =~= signed_models(signed_list)
    );
    assert(model.value + unsigned_models(seq![to_wire(signed)]) =~= model.value.push(signed));
    assert(
        Seq::new(
            model.value.len(),
            |i: int|
                (
                    (
                        if model.value[i] < 0 {
                            model.value[i] + 0x1_0000_0000_0000_0000
                        } else { model.value[i] as int }
                    ) as u64
                ),
        ) =~= signed_models(model.value)
    );
}

/// A `Sample` is written with every member under its published number, and with nothing under
/// any other.
pub proof fn sample_members_are_written_by_number(model: SampleModel, other: u32)
    ensures
        payloads(Sample::fields_model(model), 1) == (
            if model.location_id.len() == 0 { Seq::empty() } else {
                seq![ValueModel::Bytes(varints(model.location_id))]
            }
        ),
        payloads(Sample::fields_model(model), 2) == (
            if model.value.len() == 0 { Seq::empty() } else {
                seq![
                    ValueModel::Bytes(
                        varints(
                            Seq::new(
                                model.value.len(),
                                |i: int|
                                    (
                                        (
                                            if model.value[i] < 0 {
                                                model.value[i] + 0x1_0000_0000_0000_0000
                                            } else { model.value[i] as int }
                                        ) as u64
                                    ),
                            ),
                        ),
                    ),
                ]
            }
        ),
        payloads(Sample::fields_model(model), 3) == (
            Seq::new(
                model.label.len(),
                |i: int| ValueModel::Bytes(encoded::<Label>(model.label[i])),
            )
        ),
        other == 0 || other > 3 ==> payloads(
            Sample::fields_model(model),
            other,
        ) == Seq::<ValueModel>::empty(),
{
    let p0 = packed_piece(1, model.location_id);
    lemma_payloads_uniform(p0, 1);
    let p1 = packed_piece(2, signed_models(model.value));
    lemma_payloads_uniform(p1, 2);
    let p2 = messages_piece::<Label>(3, model.label);
    lemma_payloads_uniform(p2, 3);
    let s1 = p0 + p1;
    lemma_payloads_concat(p0, p1);
    let s2 = s1 + p2;
    lemma_payloads_concat(s1, p2);
    assert(Sample::fields_model(model) == s2);
    assert(
        Seq::new(
            model.value.len(),
            |i: int|
                (
                    (
                        if model.value[i] < 0 {
                            model.value[i] + 0x1_0000_0000_0000_0000
                        } else { model.value[i] as int }
                    ) as u64
                ),
        ) =~= signed_models(model.value)
    );
    assert(
        payloads(Sample::fields_model(model), 1) =~= (
            if model.location_id.len() == 0 { Seq::empty() } else {
                seq![ValueModel::Bytes(varints(model.location_id))]
            }
        )
    );
    assert(
        payloads(Sample::fields_model(model), 2) =~= (
            if model.value.len() == 0 { Seq::empty() } else {
                seq![
                    ValueModel::Bytes(
                        varints(
                            Seq::new(
                                model.value.len(),
                                |i: int|
                                    (
                                        (
                                            if model.value[i] < 0 {
                                                model.value[i] + 0x1_0000_0000_0000_0000
                                            } else { model.value[i] as int }
                                        ) as u64
                                    ),
                            ),
                        ),
                    ),
                ]
            }
        )
    );
    assert(
        payloads(Sample::fields_model(model), 3) =~= (
            Seq::new(
                model.label.len(),
                |i: int| ValueModel::Bytes(encoded::<Label>(model.label[i])),
            )
        )
    );
    if other == 0 || other > 3 {
        assert(payloads(Sample::fields_model(model), other) =~= Seq::<ValueModel>::empty());
    }
}

/// What a `Sample` shows is what its members are.
pub proof fn sample_shows_its_members(message: Sample)
    ensures
        message.model().location_id == message.location_id@,
        message.model().value == message.value@,
        message.model().label.len() == message.label@.len(),
        forall|i: int| 0 <= i < message.label@.len() ==> message.model().label[i] == (
            #[trigger] message.label@[i]
        ).model(),
{
}

/// A field of a `Mapping` sets the member that its published number stands for, and no other.
pub proof fn mapping_fields_are_known_by_number(
    model: MappingModel,
    number: u64,
    bytes: Seq<u8>,
    signed: i64,
    value: ValueModel,
    other: u32,
    budget: nat,
)
    ensures
        Mapping::merged(
            model,
            (FieldModel { tag: 1, value: ValueModel::Varint(number) }),
            budget,
        ) == Some(MappingModel { id: number, ..model }),
        Mapping::merged(
            model,
            (FieldModel { tag: 1, value: ValueModel::Bytes(bytes) }),
            budget,
        ) is None,
        Mapping::merged(
            model,
            (FieldModel { tag: 2, value: ValueModel::Varint(number) }),
            budget,
        ) == Some(MappingModel { memory_start: number, ..model }),
        Mapping::merged(
            model,
            (FieldModel { tag: 2, value: ValueModel::Bytes(bytes) }),
            budget,
        ) is None,
        Mapping::merged(
            model,
            (FieldModel { tag: 3, value: ValueModel::Varint(number) }),
            budget,
        ) == Some(MappingModel { memory_limit: number, ..model }),
        Mapping::merged(
            model,
            (FieldModel { tag: 3, value: ValueModel::Bytes(bytes) }),
            budget,
        ) is None,
        Mapping::merged(
            model,
            (FieldModel { tag: 4, value: ValueModel::Varint(number) }),
            budget,
        ) == Some(MappingModel { file_offset: number, ..model }),
        Mapping::merged(
            model,
            (FieldModel { tag: 4, value: ValueModel::Bytes(bytes) }),
            budget,
        ) is None,
        Mapping::merged(
            model,
            (
                FieldModel {
                    tag: 5,
                    value: ValueModel::Varint(
                        (
                            (
                                if signed < 0 {
                                    signed + 0x1_0000_0000_0000_0000
                                } else { signed as int }
                            ) as u64
                        ),
                    ),
                }
            ),
            budget,
        ) == Some(MappingModel { filename: signed, ..model }),
        Mapping::merged(
            model,
            (FieldModel { tag: 5, value: ValueModel::Bytes(bytes) }),
            budget,
        ) is None,
        Mapping::merged(
            model,
            (
                FieldModel {
                    tag: 6,
                    value: ValueModel::Varint(
                        (
                            (
                                if signed < 0 {
                                    signed + 0x1_0000_0000_0000_0000
                                } else { signed as int }
                            ) as u64
                        ),
                    ),
                }
            ),
            budget,
        ) == Some(MappingModel { build_id: signed, ..model }),
        Mapping::merged(
            model,
            (FieldModel { tag: 6, value: ValueModel::Bytes(bytes) }),
            budget,
        ) is None,
        Mapping::merged(
            model,
            (FieldModel { tag: 7, value: ValueModel::Varint(number) }),
            budget,
        ) == Some(MappingModel { has_functions: number != 0, ..model }),
        Mapping::merged(
            model,
            (FieldModel { tag: 7, value: ValueModel::Bytes(bytes) }),
            budget,
        ) is None,
        Mapping::merged(
            model,
            (FieldModel { tag: 8, value: ValueModel::Varint(number) }),
            budget,
        ) == Some(MappingModel { has_filenames: number != 0, ..model }),
        Mapping::merged(
            model,
            (FieldModel { tag: 8, value: ValueModel::Bytes(bytes) }),
            budget,
        ) is None,
        Mapping::merged(
            model,
            (FieldModel { tag: 9, value: ValueModel::Varint(number) }),
            budget,
        ) == Some(MappingModel { has_line_numbers: number != 0, ..model }),
        Mapping::merged(
            model,
            (FieldModel { tag: 9, value: ValueModel::Bytes(bytes) }),
            budget,
        ) is None,
        Mapping::merged(
            model,
            (FieldModel { tag: 10, value: ValueModel::Varint(number) }),
            budget,
        ) == Some(MappingModel { has_inline_frames: number != 0, ..model }),
        Mapping::merged(
            model,
            (FieldModel { tag: 10, value: ValueModel::Bytes(bytes) }),
            budget,
        ) is None,
        other == 0 || other > 10 ==> Mapping::merged(
            model,
            (FieldModel { tag: other, value }),
            budget,
        ) == Some(model),
        1 <= other <= 10 ==> Mapping::merged(
            model,
            (FieldModel { tag: other, value: ValueModel::Other }),
            budget,
        ) is None,
{
}

/// A `Mapping` is written with every member under its published number, and with nothing under
/// any other.
pub proof fn mapping_members_are_written_by_number(model: MappingModel, other: u32)
    ensures
        payloads(Mapping::fields_model(model), 1) == (
            if model.id == 0 { Seq::empty() } else { seq![ValueModel::Varint(model.id as u64)] }
        ),
        payloads(Mapping::fields_model(model), 2) == (
            if model.memory_start == 0 { Seq::empty() } else {
                seq![ValueModel::Varint(model.memory_start as u64)]
            }
        ),
        payloads(Mapping::fields_model(model), 3) == (
            if model.memory_limit == 0 { Seq::empty() } else {
                seq![ValueModel::Varint(model.memory_limit as u64)]
            }
        ),
        payloads(Mapping::fields_model(model), 4) == (
            if model.file_offset == 0 { Seq::empty() } else {
                seq![ValueModel::Varint(model.file_offset as u64)]
            }
        ),
        payloads(Mapping::fields_model(model), 5) == (
            if model.filename == 0 { Seq::empty() } else {
                seq![
                    ValueModel::Varint(
                        (
                            (
                                if model.filename < 0 {
                                    model.filename + 0x1_0000_0000_0000_0000
                                } else { model.filename as int }
                            ) as u64
                        ),
                    ),
                ]
            }
        ),
        payloads(Mapping::fields_model(model), 6) == (
            if model.build_id == 0 { Seq::empty() } else {
                seq![
                    ValueModel::Varint(
                        (
                            (
                                if model.build_id < 0 {
                                    model.build_id + 0x1_0000_0000_0000_0000
                                } else { model.build_id as int }
                            ) as u64
                        ),
                    ),
                ]
            }
        ),
        payloads(Mapping::fields_model(model), 7) == (
            if model.has_functions { seq![ValueModel::Varint(1)] } else { Seq::empty() }
        ),
        payloads(Mapping::fields_model(model), 8) == (
            if model.has_filenames { seq![ValueModel::Varint(1)] } else { Seq::empty() }
        ),
        payloads(Mapping::fields_model(model), 9) == (
            if model.has_line_numbers { seq![ValueModel::Varint(1)] } else { Seq::empty() }
        ),
        payloads(Mapping::fields_model(model), 10) == (
            if model.has_inline_frames { seq![ValueModel::Varint(1)] } else { Seq::empty() }
        ),
        other == 0 || other > 10 ==> payloads(
            Mapping::fields_model(model),
            other,
        ) == Seq::<ValueModel>::empty(),
{
    let p0 = number_piece(1, model.id);
    let p1 = number_piece(2, model.memory_start);
    let p2 = number_piece(3, model.memory_limit);
    let p3 = number_piece(4, model.file_offset);
    let p4 = number_piece(5, to_wire(model.filename));
    let p5 = number_piece(6, to_wire(model.build_id));
    let p6 = flag_piece(7, model.has_functions);
    let p7 = flag_piece(8, model.has_filenames);
    let p8 = flag_piece(9, model.has_line_numbers);
    let p9 = flag_piece(10, model.has_inline_frames);
    lemma_ten_pieces(p0, p1, p2, p3, p4, p5, p6, p7, p8, p9);
    assert(Mapping::fields_model(model) == p0 + p1 + p2 + p3 + p4 + p5 + p6 + p7 + p8 + p9);
    assert(
        p0.map_values(|field: FieldModel| field.value) =~= (
            if model.id == 0 { Seq::empty() } else { seq![ValueModel::Varint(model.id as u64)] }
        )
    );
    assert(
        p1.map_values(|field: FieldModel| field.value) =~= (
            if model.memory_start == 0 { Seq::empty() } else {
                seq![ValueModel::Varint(model.memory_start as u64)]
            }
        )
    );
    assert(
        p2.map_values(|field: FieldModel| field.value) =~= (
            if model.memory_limit == 0 { Seq::empty() } else {
                seq![ValueModel::Varint(model.memory_limit as u64)]
            }
        )
    );
    assert(
        p3.map_values(|field: FieldModel| field.value) =~= (
            if model.file_offset == 0 { Seq::empty() } else {
                seq![ValueModel::Varint(model.file_offset as u64)]
            }
        )
    );
    assert(
        p4.map_values(|field: FieldModel| field.value) =~= (
            if model.filename == 0 { Seq::empty() } else {
                seq![
                    ValueModel::Varint(
                        (
                            (
                                if model.filename < 0 {
                                    model.filename + 0x1_0000_0000_0000_0000
                                } else { model.filename as int }
                            ) as u64
                        ),
                    ),
                ]
            }
        )
    );
    assert(
        p5.map_values(|field: FieldModel| field.value) =~= (
            if model.build_id == 0 { Seq::empty() } else {
                seq![
                    ValueModel::Varint(
                        (
                            (
                                if model.build_id < 0 {
                                    model.build_id + 0x1_0000_0000_0000_0000
                                } else { model.build_id as int }
                            ) as u64
                        ),
                    ),
                ]
            }
        )
    );
    assert(
        p6.map_values(|field: FieldModel| field.value) =~= (
            if model.has_functions { seq![ValueModel::Varint(1)] } else { Seq::empty() }
        )
    );
    assert(
        p7.map_values(|field: FieldModel| field.value) =~= (
            if model.has_filenames { seq![ValueModel::Varint(1)] } else { Seq::empty() }
        )
    );
    assert(
        p8.map_values(|field: FieldModel| field.value) =~= (
            if model.has_line_numbers { seq![ValueModel::Varint(1)] } else { Seq::empty() }
        )
    );
    assert(
        p9.map_values(|field: FieldModel| field.value) =~= (
            if model.has_inline_frames { seq![ValueModel::Varint(1)] } else { Seq::empty() }
        )
    );
}

proof fn lemma_ten_pieces(
    p0: Seq<FieldModel>,
    p1: Seq<FieldModel>,
    p2: Seq<FieldModel>,
    p3: Seq<FieldModel>,
    p4: Seq<FieldModel>,
    p5: Seq<FieldModel>,
    p6: Seq<FieldModel>,
    p7: Seq<FieldModel>,
    p8: Seq<FieldModel>,
    p9: Seq<FieldModel>,
)
    requires
        forall|i: int| 0 <= i < p0.len() ==> (#[trigger] p0[i]).tag == 1,
        forall|i: int| 0 <= i < p1.len() ==> (#[trigger] p1[i]).tag == 2,
        forall|i: int| 0 <= i < p2.len() ==> (#[trigger] p2[i]).tag == 3,
        forall|i: int| 0 <= i < p3.len() ==> (#[trigger] p3[i]).tag == 4,
        forall|i: int| 0 <= i < p4.len() ==> (#[trigger] p4[i]).tag == 5,
        forall|i: int| 0 <= i < p5.len() ==> (#[trigger] p5[i]).tag == 6,
        forall|i: int| 0 <= i < p6.len() ==> (#[trigger] p6[i]).tag == 7,
        forall|i: int| 0 <= i < p7.len() ==> (#[trigger] p7[i]).tag == 8,
        forall|i: int| 0 <= i < p8.len() ==> (#[trigger] p8[i]).tag == 9,
        forall|i: int| 0 <= i < p9.len() ==> (#[trigger] p9[i]).tag == 10,
    ensures
        payloads(p0 + p1 + p2 + p3 + p4 + p5 + p6 + p7 + p8 + p9, 1) == p0.map_values(|field: FieldModel| field.value),
        payloads(p0 + p1 + p2 + p3 + p4 + p5 + p6 + p7 + p8 + p9, 2) == p1.map_values(|field: FieldModel| field.value),
        payloads(p0 + p1 + p2 + p3 + p4 + p5 + p6 + p7 + p8 + p9, 3) == p2.map_values(|field: FieldModel| field.value),
        payloads(p0 + p1 + p2 + p3 + p4 + p5 + p6 + p7 + p8 + p9, 4) == p3.map_values(|field: FieldModel| field.value),
        payloads(p0 + p1 + p2 + p3 + p4 + p5 + p6 + p7 + p8 + p9, 5) == p4.map_values(|field: FieldModel| field.value),
        payloads(p0 + p1 + p2 + p3 + p4 + p5 + p6 + p7 + p8 + p9, 6) == p5.map_values(|field: FieldModel| field.value),
        payloads(p0 + p1 + p2 + p3 + p4 + p5 + p6 + p7 + p8 + p9, 7) == p6.map_values(|field: FieldModel| field.value),
        payloads(p0 + p1 + p2 + p3 + p4 + p5 + p6 + p7 + p8 + p9, 8) == p7.map_values(|field: FieldModel| field.value),
        payloads(p0 + p1 + p2 + p3 + p4 + p5 + p6 + p7 + p8 + p9, 9) == p8.map_values(|field: FieldModel| field.value),
        payloads(p0 + p1 + p2 + p3 + p4 + p5 + p6 + p7 + p8 + p9, 10) == p9.map_values(|field: FieldModel| field.value),
        forall|tag: u32| tag == 0 || tag > 10 ==> #[trigger] payloads(p0 + p1 + p2 + p3 + p4 + p5 + p6 + p7 + p8 + p9, tag) == Seq::<ValueModel>::empty(),
{
    lemma_payloads_uniform(p0, 1);
    lemma_payloads_uniform(p1, 2);
    lemma_payloads_uniform(p2, 3);
    lemma_payloads_uniform(p3, 4);
    lemma_payloads_uniform(p4, 5);
    lemma_payloads_uniform(p5, 6);
    lemma_payloads_uniform(p6, 7);
    lemma_payloads_uniform(p7, 8);
    lemma_payloads_uniform(p8, 9);
    lemma_payloads_uniform(p9, 10);
    let s1 = p0 + p1;
    lemma_payloads_concat(p0, p1);
    let s2 = s1 + p2;
    lemma_payloads_concat(s1, p2);
    let s3 = s2 + p3;
    lemma_payloads_concat(s2, p3);
    let s4 = s3 + p4;
    lemma_payloads_concat(s3, p4);
    let s5 = s4 + p5;
    lemma_payloads_concat(s4, p5);
    let s6 = s5 + p6;
    lemma_payloads_concat(s5, p6);
    let s7 = s6 + p7;
    lemma_payloads_concat(s6, p7);
    let s8 = s7 + p8;
    lemma_payloads_concat(s7, p8);
    let s9 = s8 + p9;
    lemma_payloads_concat(s8, p9);
    assert(payloads(s9, 1) =~= p0.map_values(|field: FieldModel| field.value));
    assert(payloads(s9, 2) =~= p1.map_values(|field: FieldModel| field.value));
    assert(payloads(s9, 3) =~= p2.map_values(|field: FieldModel| field.value));
    assert(payloads(s9, 4) =~= p3.map_values(|field: FieldModel| field.value));
    assert(payloads(s9, 5) =~= p4.map_values(|field: FieldModel| field.value));
    assert(payloads(s9, 6) =~= p5.map_values(|field: FieldModel| field.value));
    assert(payloads(s9, 7) =~= p6.map_values(|field: FieldModel| field.value));
    assert(payloads(s9, 8) =~= p7.map_values(|field: FieldModel| field.value));
    assert(payloads(s9, 9) =~= p8.map_values(|field: FieldModel| field.value));
    assert(payloads(s9, 10) =~= p9.map_values(|field: FieldModel| field.value));
    assert forall|tag: u32| tag == 0 || tag > 10 implies #[trigger] payloads(s9, tag) == Seq::<ValueModel>::empty() by {
        assert(payloads(s9, tag) =~= Seq::<ValueModel>::empty());
    }
}

/// What a `Mapping` shows is what its members are.
pub proof fn mapping_shows_its_members(message: Mapping)
    ensures
        message.model().id == message.id,
        message.model().memory_start == message.memory_start,
        message.model().memory_limit == message.memory_limit,
        message.model().file_offset == message.file_offset,
        message.model().filename == message.filename,
        message.model().build_id == message.build_id,
        message.model().has_functions == message.has_functions,
        message.model().has_filenames == message.has_filenames,
        message.model().has_line_numbers == message.has_line_numbers,
        message.model().has_inline_frames == message.has_inline_frames,
{
}

/// A field of a `Line` sets the member that its published number stands for, and no other.
pub proof fn line_fields_are_known_by_number(
    model: LineModel,
    number: u64,
    bytes: Seq<u8>,
    signed: i64,
    value: ValueModel,
    other: u32,
    budget: nat,
)
    ensures
        Line::merged(
            model,
            (FieldModel { tag: 1, value: ValueModel::Varint(number) }),
            budget,
        ) == Some(LineModel { function_id: number, ..model }),
        Line::merged(
            model,
            (FieldModel { tag: 1, value: ValueModel::Bytes(bytes) }),
            budget,
        ) is None,
        Line::merged(
            model,
            (
                FieldModel {
                    tag: 2,
                    value: ValueModel::Varint(
                        (
                            (
                                if signed < 0 {
                                    signed + 0x1_0000_0000_0000_0000
                                } else { signed as int }
                            ) as u64
                        ),
                    ),
                }
            ),
            budget,
        ) == Some(LineModel { line: signed, ..model }),
        Line::merged(
            model,
            (FieldModel { tag: 2, value: ValueModel::Bytes(bytes) }),
            budget,
        ) is None,
        other == 0 || other > 2 ==> Line::merged(
            model,
            (FieldModel { tag: other, value }),
            budget,
        ) == Some(model),
        1 <= other <= 2 ==> Line::merged(
            model,
            (FieldModel { tag: other, value: ValueModel::Other }),
            budget,
        ) is None,
{
}

/// A `Line` is written with every member under its published number, and with nothing under
/// any other.
pub proof fn line_members_are_written_by_number(model: LineModel, other: u32)
    ensures
        payloads(Line::fields_model(model), 1) == (
            if model.function_id == 0 { Seq::empty() } else {
                seq![ValueModel::Varint(model.function_id as u64)]
            }
        ),
        payloads(Line::fields_model(model), 2) == (
            if model.line == 0 { Seq::empty() } else {
                seq![
                    ValueModel::Varint(
                        (
                            (
                                if model.line < 0 {
                                    model.line + 0x1_0000_0000_0000_0000
                                } else { model.line as int }
                            ) as u64
                        ),
                    ),
                ]
            }
        ),
        other == 0 || other > 2 ==> payloads(
            Line::fields_model(model),
            other,
        ) == Seq::<ValueModel>::empty(),
{
    let p0 = number_piece(1, model.function_id);
    lemma_payloads_uniform(p0, 1);
    let p1 = number_piece(2, to_wire(model.line));
    lemma_payloads_uniform(p1, 2);
    let s1 = p0 + p1;
    lemma_payloads_concat(p0, p1);
    assert(Line::fields_model(model) == s1);
    assert(
        payloads(Line::fields_model(model), 1) =~= (
            if model.function_id == 0 { Seq::empty() } else {
                seq![ValueModel::Varint(model.function_id as u64)]
            }
        )
    );
    assert(
        payloads(Line::fields_model(model), 2) =~= (
            if model.line == 0 { Seq::empty() } else {
                seq![
                    ValueModel::Varint(
                        (
                            (
                                if model.line < 0 {
                                    model.line + 0x1_0000_0000_0000_0000
                                } else { model.line as int }
                            ) as u64
                        ),
                    ),
                ]
            }
        )
    );
    if other == 0 || other > 2 {
        assert(payloads(Line::fields_model(model), other) =~= Seq::<ValueModel>::empty());
    }
}

/// What a `Line` shows is what its members are.
pub proof fn line_shows_its_members(message: Line)
    ensures
        message.model().function_id == message.function_id,
        message.model().line == message.line,
{
}

/// A field of a `Location` sets the member that its published number stands for, and no other.
pub proof fn location_fields_are_known_by_number(
    model: LocationModel,
    number: u64,
    bytes: Seq<u8>,
    value: ValueModel,
    other: u32,
    budget: nat,
)
    ensures
        Location::merged(
            model,
            (FieldModel { tag: 1, value: ValueModel::Varint(number) }),
            budget,
        ) == Some(LocationModel { id: number, ..model }),
        Location::merged(
            model,
            (FieldModel { tag: 1, value: ValueModel::Bytes(bytes) }),
            budget,
        ) is None,
        Location::merged(
            model,
            (FieldModel { tag: 2, value: ValueModel::Varint(number) }),
            budget,
        ) == Some(LocationModel { mapping_id: number, ..model }),
        Location::merged(
            model,
            (FieldModel { tag: 2, value: ValueModel::Bytes(bytes) }),
            budget,
        ) is None,
        Location::merged(
            model,
            (FieldModel { tag: 3, value: ValueModel::Varint(number) }),
            budget,
        ) == Some(LocationModel { address: number, ..model }),
        Location::merged(
            model,
            (FieldModel { tag: 3, value: ValueModel::Bytes(bytes) }),
            budget,
        ) is None,
        Location::merged(
            model,
            (FieldModel { tag: 4, value: ValueModel::Varint(number) }),
            budget,
        ) is None,
        budget > 0 && decoded::<Line>(bytes, (budget - 1) as nat) is Some ==> Location::merged(
            model,
            (FieldModel { tag: 4, value: ValueModel::Bytes(bytes) }),
            budget,
        ) == Some(
            LocationModel {
                line: model.line.push(decoded::<Line>(bytes, (budget - 1) as nat)->Some_0),
                ..model
            },
        ),
        budget > 0 && decoded::<Line>(bytes, (budget - 1) as nat) is None ==> Location::merged(
            model,
            (FieldModel { tag: 4, value: ValueModel::Bytes(bytes) }),
            budget,
        ) is None,
        Location::merged(
            model,
            (FieldModel { tag: 5, value: ValueModel::Varint(number) }),
            budget,
        ) == Some(LocationModel { is_folded: number != 0, ..model }),
        Location::merged(
            model,
            (FieldModel { tag: 5, value: ValueModel::Bytes(bytes) }),
            budget,
        ) is None,
        other == 0 || other > 5 ==> Location::merged(
            model,
            (FieldModel { tag: other, value }),
            budget,
        ) == Some(model),
        1 <= other <= 5 ==> Location::merged(
            model,
            (FieldModel { tag: other, value: ValueModel::Other }),
            budget,
        ) is None,
{
}

/// A `Location` is written with every member under its published number, and with nothing under
/// any other.
pub proof fn location_members_are_written_by_number(model: LocationModel, other: u32)
    ensures
        payloads(Location::fields_model(model), 1) == (
            if model.id == 0 { Seq::empty() } else { seq![ValueModel::Varint(model.id as u64)] }
        ),
        payloads(Location::fields_model(model), 2) == (
            if model.mapping_id == 0 { Seq::empty() } else {
                seq![ValueModel::Varint(model.mapping_id as u64)]
            }
        ),
        payloads(Location::fields_model(model), 3) == (
            if model.address == 0 { Seq::empty() } else {
                seq![ValueModel::Varint(model.address as u64)]
            }
        ),
        payloads(Location::fields_model(model), 4) == (
            Seq::new(model.line.len(), |i: int| ValueModel::Bytes(encoded::<Line>(model.line[i])))
        ),
        payloads(Location::fields_model(model), 5) == (
            if model.is_folded { seq![ValueModel::Varint(1)] } else { Seq::empty() }
        ),
        other == 0 || other > 5 ==> payloads(
            Location::fields_model(model),
            other,
        ) == Seq::<ValueModel>::empty(),
{
    let p0 = number_piece(1, model.id);
    lemma_payloads_uniform(p0, 1);
    let p1 = number_piece(2, model.mapping_id);
    lemma_payloads_uniform(p1, 2);
    let p2 = number_piece(3, model.address);
    lemma_payloads_uniform(p2, 3);
    let p3 = messages_piece::<Line>(4, model.line);
    lemma_payloads_uniform(p3, 4);
    let p4 = flag_piece(5, model.is_folded);
    lemma_payloads_uniform(p4, 5);
    let s1 = p0 + p1;
    lemma_payloads_concat(p0, p1);
    let s2 = s1 + p2;
    lemma_payloads_concat(s1, p2);
    let s3 = s2 + p3;
    lemma_payloads_concat(s2, p3);
    let s4 = s3 + p4;
    lemma_payloads_concat(s3, p4);
    assert(Location::fields_model(model) == s4);
    assert(
        payloads(Location::fields_model(model), 1) =~= (
            if model.id == 0 { Seq::empty() } else { seq![ValueModel::Varint(model.id as u64)] }
        )
    );
    assert(
        payloads(Location::fields_model(model), 2) =~= (
            if model.mapping_id == 0 { Seq::empty() } else {
                seq![ValueModel::Varint(model.mapping_id as u64)]
            }
        )
    );
    assert(
        payloads(Location::fields_model(model), 3) =~= (
            if model.address == 0 { Seq::empty() } else {
                seq![ValueModel::Varint(model.address as u64)]
            }
        )
    );
    assert(
        payloads(Location::fields_model(model), 4) =~= (
            Seq::new(model.line.len(), |i: int| ValueModel::Bytes(encoded::<Line>(model.line[i])))
        )
    );
    assert(
        payloads(Location::fields_model(model), 5) =~= (
            if model.is_folded { seq![ValueModel::Varint(1)] } else { Seq::empty() }
        )
    );
    if other == 0 || other > 5 {
        assert(payloads(Location::fields_model(model), other) =~= Seq::<ValueModel>::empty());
    }
}

/// What a `Location` shows is what its members are.
pub proof fn location_shows_its_members(message: Location)
    ensures
        message.model().id == message.id,
        message.model().mapping_id == message.mapping_id,
        message.model().address == message.address,
        message.model().line.len() == message.line@.len(),
        forall|i: int| 0 <= i < message.line@.len() ==> message.model().line[i] == (
            #[trigger] message.line@[i]
        ).model(),
        message.model().is_folded == message.is_folded,
{
}

/// A field of a `Function` sets the member that its published number stands for, and no other.
pub proof fn function_fields_are_known_by_number(
    model: FunctionModel,
    number: u64,
    bytes: Seq<u8>,
    signed: i64,
    value: ValueModel,
    other: u32,
    budget: nat,
)
    ensures
        Function::merged(
            model,
            (FieldModel { tag: 1, value: ValueModel::Varint(number) }),
            budget,
        ) == Some(FunctionModel { id: number, ..model }),
        Function::merged(
            model,
            (FieldModel { tag: 1, value: ValueModel::Bytes(bytes) }),
            budget,
        ) is None,
        Function::merged(
            model,
            (
                FieldModel {
                    tag: 2,
                    value: ValueModel::Varint(
                        (
                            (
                                if signed < 0 {
                                    signed + 0x1_0000_0000_0000_0000
                                } else { signed as int }
                            ) as u64
                        ),
                    ),
                }
            ),
            budget,
        ) == Some(FunctionModel { name: signed, ..model }),
        Function::merged(
            model,
            (FieldModel { tag: 2, value: ValueModel::Bytes(bytes) }),
            budget,
        ) is None,
        Function::merged(
            model,
            (
                FieldModel {
                    tag: 3,
                    value: ValueModel::Varint(
                        (
                            (
                                if signed < 0 {
                                    signed + 0x1_0000_0000_0000_0000
                                } else { signed as int }
                            ) as u64
                        ),
                    ),
                }
            ),
            budget,
        ) == Some(FunctionModel { system_name: signed, ..model }),
        Function::merged(
            model,
            (FieldModel { tag: 3, value: ValueModel::Bytes(bytes) }),
            budget,
        ) is None,
        Function::merged(
            model,
            (
                FieldModel {
                    tag: 4,
                    value: ValueModel::Varint(
                        (
                            (
                                if signed < 0 {
                                    signed + 0x1_0000_0000_0000_0000
                                } else { signed as int }
                            ) as u64
                        ),
                    ),
                }
            ),
            budget,
        ) == Some(FunctionModel { filename: signed, ..model }),
        Function::merged(
            model,
            (FieldModel { tag: 4, value: ValueModel::Bytes(bytes) }),
            budget,
        ) is None,
        Function::merged(
            model,
            (
                FieldModel {
                    tag: 5,
                    value: ValueModel::Varint(
                        (
                            (
                                if signed < 0 {
                                    signed + 0x1_0000_0000_0000_0000
                                } else { signed as int }
                            ) as u64
                        ),
                    ),
                }
            ),
            budget,
        ) == Some(FunctionModel { start_line: signed, ..model }),
        Function::merged(
            model,
            (FieldModel { tag: 5, value: ValueModel::Bytes(bytes) }),
            budget,
        ) is None,
        other == 0 || other > 5 ==> Function::merged(
            model,
            (FieldModel { tag: other, value }),
            budget,
        ) == Some(model),
        1 <= other <= 5 ==> Function::merged(
            model,
            (FieldModel { tag: other, value: ValueModel::Other }),
            budget,
        ) is None,
{
}

/// A `Function` is written with every member under its published number, and with nothing under
/// any other.
pub proof fn function_members_are_written_by_number(model: FunctionModel, other: u32)
    ensures
        payloads(Function::fields_model(model), 1) == (
            if model.id == 0 { Seq::empty() } else { seq![ValueModel::Varint(model.id as u64)] }
        ),
        payloads(Function::fields_model(model), 2) == (
            if model.name == 0 { Seq::empty() } else {
                seq![
                    ValueModel::Varint(
                        (
                            (
                                if model.name < 0 {
                                    model.name + 0x1_0000_0000_0000_0000
                                } else { model.name as int }
                            ) as u64
                        ),
                    ),
                ]
            }
        ),
        payloads(Function::fields_model(model), 3) == (
            if model.system_name == 0 { Seq::empty() } else {
                seq![
                    ValueModel::Varint(
                        (
                            (
                                if model.system_name < 0 {
                                    model.system_name + 0x1_0000_0000_0000_0000
                                } else { model.system_name as int }
                            ) as u64
                        ),
                    ),
                ]
            }
        ),
        payloads(Function::fields_model(model), 4) == (
            if model.filename == 0 { Seq::empty() } else {
                seq![
                    ValueModel::Varint(
                        (
                            (
                                if model.filename < 0 {
                                    model.filename + 0x1_0000_0000_0000_0000
                                } else { model.filename as int }
                            ) as u64
                        ),
                    ),
                ]
            }
        ),
        payloads(Function::fields_model(model), 5) == (
            if model.start_line == 0 { Seq::empty() } else {
                seq![
                    ValueModel::Varint(
                        (
                            (
                                if model.start_line < 0 {
                                    model.start_line + 0x1_0000_0000_0000_0000
                                } else { model.start_line as int }
                            ) as u64
                        ),
                    ),
                ]
            }
        ),
        other == 0 || other > 5 ==> payloads(
            Function::fields_model(model),
            other,
        ) == Seq::<ValueModel>::empty(),
{
    let p0 = number_piece(1, model.id);
    lemma_payloads_uniform(p0, 1);
    let p1 = number_piece(2, to_wire(model.name));
    lemma_payloads_uniform(p1, 2);
    let p2 = number_piece(3, to_wire(model.system_name));
    lemma_payloads_uniform(p2, 3);
    let p3 = number_piece(4, to_wire(model.filename));
    lemma_payloads_uniform(p3, 4);
    let p4 = number_piece(5, to_wire(model.start_line));
    lemma_payloads_uniform(p4, 5);
    let s1 = p0 + p1;
    lemma_payloads_concat(p0, p1);
    let s2 = s1 + p2;
    lemma_payloads_concat(s1, p2);
    let s3 = s2 + p3;
    lemma_payloads_concat(s2, p3);
    let s4 = s3 + p4;
    lemma_payloads_concat(s3, p4);
    assert(Function::fields_model(model) == s4);
    assert(
        payloads(Function::fields_model(model), 1) =~= (
            if model.id == 0 { Seq::empty() } else { seq![ValueModel::Varint(model.id as u64)] }
        )
    );
    assert(
        payloads(Function::fields_model(model), 2) =~= (
            if model.name == 0 { Seq::empty() } else {
                seq![
                    ValueModel::Varint(
                        (
                            (
                                if model.name < 0 {
                                    model.name + 0x1_0000_0000_0000_0000
                                } else { model.name as int }
                            ) as u64
                        ),
                    ),
                ]
            }
        )
    );
    assert(
        payloads(Function::fields_model(model), 3) =~= (
            if model.system_name == 0 { Seq::empty() } else {
                seq![
                    ValueModel::Varint(
                        (
                            (
                                if model.system_name < 0 {
                                    model.system_name + 0x1_0000_0000_0000_0000
                                } else { model.system_name as int }
                            ) as u64
                        ),
                    ),
                ]
            }
        )
    );
    assert(
        payloads(Function::fields_model(model), 4) =~= (
            if model.filename == 0 { Seq::empty() } else {
                seq![
                    ValueModel::Varint(
                        (
                            (
                                if model.filename < 0 {
                                    model.filename + 0x1_0000_0000_0000_0000
                                } else { model.filename as int }
                            ) as u64
                        ),
                    ),
                ]
            }
        )
    );
    assert(
        payloads(Function::fields_model(model), 5) =~= (
            if model.start_line == 0 { Seq::empty() } else {
                seq![
                    ValueModel::Varint(
                        (
                            (
                                if model.start_line < 0 {
                                    model.start_line + 0x1_0000_0000_0000_0000
                                } else { model.start_line as int }
                            ) as u64
                        ),
                    ),
                ]
            }
        )
    );
    if other == 0 || other > 5 {
        assert(payloads(Function::fields_model(model), other) =~= Seq::<ValueModel>::empty());
    }
}

/// What a `Function` shows is what its members are.
pub proof fn function_shows_its_members(message: Function)
    ensures
        message.model().id == message.id,
        message.model().name == message.name,
        message.model().system_name == message.system_name,
        message.model().filename == message.filename,
        message.model().start_line == message.start_line,
{
}

/// A field of a `Profile` sets the member that its published number stands for, and no other.
pub proof fn profile_fields_are_known_by_number(
    model: ProfileModel,
    bytes: Seq<u8>,
    number: u64,
    text: Seq<char>,
    signed: i64,
    signed_list: Seq<i64>,
    value: ValueModel,
    other: u32,
    budget: nat,
)
    ensures
        Profile::merged(
            model,
            (FieldModel { tag: 1, value: ValueModel::Varint(number) }),
            budget,
        ) is None,
        budget > 0 && decoded::<ValueType>(bytes, (budget - 1) as nat) is Some ==> Profile::merged(
            model,
            (FieldModel { tag: 1, value: ValueModel::Bytes(bytes) }),
            budget,
        ) == Some(
            ProfileModel {
                sample_type: model.sample_type.push(
                    decoded::<ValueType>(bytes, (budget - 1) as nat)->Some_0,
                ),
                ..model
            },
        ),
        budget > 0 && decoded::<ValueType>(bytes, (budget - 1) as nat) is None ==> Profile::merged(
            model,
            (FieldModel { tag: 1, value: ValueModel::Bytes(bytes) }),
            budget,
        ) is None,
        Profile::merged(
            model,
            (FieldModel { tag: 2, value: ValueModel::Varint(number) }),
            budget,
        ) is None,
        budget > 0 && decoded::<Sample>(bytes, (budget - 1) as nat) is Some ==> Profile::merged(
            model,
            (FieldModel { tag: 2, value: ValueModel::Bytes(bytes) }),
            budget,
        ) == Some(
            ProfileModel {
                sample: model.sample.push(decoded::<Sample>(bytes, (budget - 1) as nat)->Some_0),
                ..model
            },
        ),
        budget > 0 && decoded::<Sample>(bytes, (budget - 1) as nat) is None ==> Profile::merged(
            model,
            (FieldModel { tag: 2, value: ValueModel::Bytes(bytes) }),
            budget,
        ) is None,
        Profile::merged(
            model,
            (FieldModel { tag: 3, value: ValueModel::Varint(number) }),
            budget,
        ) is None,
        budget > 0 && decoded::<Mapping>(bytes, (budget - 1) as nat) is Some ==> Profile::merged(
            model,
            (FieldModel { tag: 3, value: ValueModel::Bytes(bytes) }),
            budget,
        ) == Some(
            ProfileModel {
                mapping: model.mapping.push(decoded::<Mapping>(bytes, (budget - 1) as nat)->Some_0),
                ..model
            },
        ),
        budget > 0 && decoded::<Mapping>(bytes, (budget - 1) as nat) is None ==> Profile::merged(
            model,
            (FieldModel { tag: 3, value: ValueModel::Bytes(bytes) }),
            budget,
        ) is None,
        Profile::merged(
            model,
            (FieldModel { tag: 4, value: ValueModel::Varint(number) }),
            budget,
        ) is None,
        budget > 0 && decoded::<Location>(bytes, (budget - 1) as nat) is Some ==> Profile::merged(
            model,
            (FieldModel { tag: 4, value: ValueModel::Bytes(bytes) }),
            budget,
        ) == Some(
            ProfileModel {
                location: model.location.push(
                    decoded::<Location>(bytes, (budget - 1) as nat)->Some_0,
                ),
                ..model
            },
        ),
        budget > 0 && decoded::<Location>(bytes, (budget - 1) as nat) is None ==> Profile::merged(
            model,
            (FieldModel { tag: 4, value: ValueModel::Bytes(bytes) }),
            budget,
        ) is None,
        Profile::merged(
            model,
            (FieldModel { tag: 5, value: ValueModel::Varint(number) }),
            budget,
        ) is None,
        budget > 0 && decoded::<Function>(bytes, (budget - 1) as nat) is Some ==> Profile::merged(
            model,
            (FieldModel { tag: 5, value: ValueModel::Bytes(bytes) }),
            budget,
        ) == Some(
            ProfileModel {
                function: model.function.push(
                    decoded::<Function>(bytes, (budget - 1) as nat)->Some_0,
                ),
                ..model
            },
        ),
        budget > 0 && decoded::<Function>(bytes, (budget - 1) as nat) is None ==> Profile::merged(
            model,
            (FieldModel { tag: 5, value: ValueModel::Bytes(bytes) }),
            budget,
        ) is None,
        Profile::merged(
            model,
            (FieldModel { tag: 6, value: ValueModel::Bytes(encode_utf8(text)) }),
            budget,
        ) == Some(ProfileModel { string_table: model.string_table.push(text), ..model }),
        !valid_utf8(bytes) ==> Profile::merged(
            model,
            (FieldModel { tag: 6, value: ValueModel::Bytes(bytes) }),
            budget,
        ) is None,
        Profile::merged(
            model,
            (FieldModel { tag: 6, value: ValueModel::Varint(number) }),
            budget,
        ) is None,
        Profile::merged(
            model,
            (
                FieldModel {
                    tag: 7,
                    value: ValueModel::Varint(
                        (
                            (
                                if signed < 0 {
                                    signed + 0x1_0000_0000_0000_0000
                                } else { signed as int }
                            ) as u64
                        ),
                    ),
                }
            ),
            budget,
        ) == Some(ProfileModel { drop_frames: signed, ..model }),
        Profile::merged(
            model,
            (FieldModel { tag: 7, value: ValueModel::Bytes(bytes) }),
            budget,
        ) is None,
        Profile::merged(
            model,
            (
                FieldModel {
                    tag: 8,
                    value: ValueModel::Varint(
                        (
                            (
                                if signed < 0 {
                                    signed + 0x1_0000_0000_0000_0000
                                } else { signed as int }
                            ) as u64
                        ),
                    ),
                }
            ),
            budget,
        ) == Some(ProfileModel { keep_frames: signed, ..model }),
        Profile::merged(
            model,
            (FieldModel { tag: 8, value: ValueModel::Bytes(bytes) }),
            budget,
        ) is None,
        Profile::merged(
            model,
            (
                FieldModel {
                    tag: 9,
                    value: ValueModel::Varint(
                        (
                            (
                                if signed < 0 {
                                    signed + 0x1_0000_0000_0000_0000
                                } else { signed as int }
                            ) as u64
                        ),
                    ),
                }
            ),
            budget,
        ) == Some(ProfileModel { time_nanos: signed, ..model }),
        Profile::merged(
            model,
            (FieldModel { tag: 9, value: ValueModel::Bytes(bytes) }),
            budget,
        ) is None,
        Profile::merged(
            model,
            (
                FieldModel {
                    tag: 10,
                    value: ValueModel::Varint(
                        (
                            (
                                if signed < 0 {
                                    signed + 0x1_0000_0000_0000_0000
                                } else { signed as int }
                            ) as u64
                        ),
                    ),
                }
            ),
            budget,
        ) == Some(ProfileModel { duration_nanos: signed, ..model }),
        Profile::merged(
            model,
            (FieldModel { tag: 10, value: ValueModel::Bytes(bytes) }),
            budget,
        ) is None,
        Profile::merged(
            model,
            (FieldModel { tag: 11, value: ValueModel::Varint(number) }),
            budget,
        ) is None,
        budget > 0 && decoded_onto::<ValueType>(
            (match model.period_type { Some(held) => held, None => ValueType::blank_model() }),
            bytes,
            (budget - 1) as nat,
        ) is Some ==> Profile::merged(
            model,
            (FieldModel { tag: 11, value: ValueModel::Bytes(bytes) }),
            budget,
        ) == Some(
            ProfileModel {
                period_type: Some(
                    decoded_onto::<ValueType>(
                        (
                            match model.period_type {
                                Some(held) => held,
                                None => ValueType::blank_model(),
                            }
                        ),
                        bytes,
                        (budget - 1) as nat,
                    )->Some_0,
                ),
                ..model
            },
        ),
        Profile::merged(
            model,
            (
                FieldModel {
                    tag: 12,
                    value: ValueModel::Varint(
                        (
                            (
                                if signed < 0 {
                                    signed + 0x1_0000_0000_0000_0000
                                } else { signed as int }
                            ) as u64
                        ),
                    ),
                }
            ),
            budget,
        ) == Some(ProfileModel { period: signed, ..model }),
        Profile::merged(
            model,
            (FieldModel { tag: 12, value: ValueModel::Bytes(bytes) }),
            budget,
        ) is None,
        Profile::merged(
            model,
            (
                FieldModel {
                    tag: 13,
                    value: ValueModel::Varint(
                        (
                            (
                                if signed < 0 {
                                    signed + 0x1_0000_0000_0000_0000
                                } else { signed as int }
                            ) as u64
                        ),
                    ),
                }
            ),
            budget,
        ) == Some(ProfileModel { comment: model.comment.push(signed), ..model }),
        Profile::merged(
            model,
            (
                FieldModel {
                    tag: 13,
                    value: ValueModel::Bytes(
                        varints(
                            Seq::new(
                                signed_list.len(),
                                |i: int|
                                    (
                                        (
                                            if signed_list[i] < 0 {
                                                signed_list[i] + 0x1_0000_0000_0000_0000
                                            } else { signed_list[i] as int }
                                        ) as u64
                                    ),
                            ),
                        ),
                    ),
                }
            ),
            budget,
        ) == Some(ProfileModel { comment: model.comment + signed_list, ..model }),
        Profile::merged(
            model,
            (
                FieldModel {
                    tag: 14,
                    value: ValueModel::Varint(
                        (
                            (
                                if signed < 0 {
                                    signed + 0x1_0000_0000_0000_0000
                                } else { signed as int }
                            ) as u64
                        ),
                    ),
                }
            ),
            budget,
        ) == Some(ProfileModel { default_sample_type: signed, ..model }),
        Profile::merged(
            model,
            (FieldModel { tag: 14, value: ValueModel::Bytes(bytes) }),
            budget,
        ) is None,
        other == 0 || other > 14 ==> Profile::merged(
            model,
            (FieldModel { tag: other, value }),
            budget,
        ) == Some(model),
        1 <= other <= 14 ==> Profile::merged(
            model,
            (FieldModel { tag: other, value: ValueModel::Other }),
            budget,
        ) is None,
{
    lemma_text(text);
    lemma_signed_round_trip(signed_list);
    lemma_varints_round_trip(signed_models(signed_list));
    assert(
        Seq::new(
            signed_list.len(),
            |i: int|
                (
                    (
                        if signed_list[i] < 0 {
                            signed_list[i] + 0x1_0000_0000_0000_0000
                        } else { signed_list[i] as int }
                    ) as u64
                ),
        ) =~= signed_models(signed_list)
    );
    assert(model.comment + unsigned_models(seq![to_wire(signed)]) =~= model.comment.push(signed));
    assert(
        Seq::new(
            model.comment.len(),
            |i: int|
                (
                    (
                        if model.comment[i] < 0 {
                            model.comment[i] + 0x1_0000_0000_0000_0000
                        } else { model.comment[i] as int }
                    ) as u64
                ),
        ) =~= signed_models(model.comment)
    );
}

/// A `Profile` is written with every member under its published number, and with nothing under
/// any other.
pub proof fn profile_members_are_written_by_number(model: ProfileModel, other: u32)
    ensures
        payloads(Profile::fields_model(model), 1) == (
            Seq::new(
                model.sample_type.len(),
                |i: int| ValueModel::Bytes(encoded::<ValueType>(model.sample_type[i])),
            )
        ),
        payloads(Profile::fields_model(model), 2) == (
            Seq::new(
                model.sample.len(),
                |i: int| ValueModel::Bytes(encoded::<Sample>(model.sample[i])),
            )
        ),
        payloads(Profile::fields_model(model), 3) == (
            Seq::new(
                model.mapping.len(),
                |i: int| ValueModel::Bytes(encoded::<Mapping>(model.mapping[i])),
            )
        ),
        payloads(Profile::fields_model(model), 4) == (
            Seq::new(
                model.location.len(),
                |i: int| ValueModel::Bytes(encoded::<Location>(model.location[i])),
            )
        ),
        payloads(Profile::fields_model(model), 5) == (
            Seq::new(
                model.function.len(),
                |i: int| ValueModel::Bytes(encoded::<Function>(model.function[i])),
            )
        ),
        payloads(Profile::fields_model(model), 6) == (
            Seq::new(
                model.string_table.len(),
                |i: int| ValueModel::Bytes(encode_utf8(model.string_table[i])),
            )
        ),
        payloads(Profile::fields_model(model), 7) == (
            if model.drop_frames == 0 { Seq::empty() } else {
                seq![
                    ValueModel::Varint(
                        (
                            (
                                if model.drop_frames < 0 {
                                    model.drop_frames + 0x1_0000_0000_0000_0000
                                } else { model.drop_frames as int }
                            ) as u64
                        ),
                    ),
                ]
            }
        ),
        payloads(Profile::fields_model(model), 8) == (
            if model.keep_frames == 0 { Seq::empty() } else {
                seq![
                    ValueModel::Varint(
                        (
                            (
                                if model.keep_frames < 0 {
                                    model.keep_frames + 0x1_0000_0000_0000_0000
                                } else { model.keep_frames as int }
                            ) as u64
                        ),
                    ),
                ]
            }
        ),
        payloads(Profile::fields_model(model), 9) == (
            if model.time_nanos == 0 { Seq::empty() } else {
                seq![
                    ValueModel::Varint(
                        (
                            (
                                if model.time_nanos < 0 {
                                    model.time_nanos + 0x1_0000_0000_0000_0000
                                } else { model.time_nanos as int }
                            ) as u64
                        ),
                    ),
                ]
            }
        ),
        payloads(Profile::fields_model(model), 10) == (
            if model.duration_nanos == 0 { Seq::empty() } else {
                seq![
                    ValueModel::Varint(
                        (
                            (
                                if model.duration_nanos < 0 {
                                    model.duration_nanos + 0x1_0000_0000_0000_0000
                                } else { model.duration_nanos as int }
                            ) as u64
                        ),
                    ),
                ]
            }
        ),
        payloads(Profile::fields_model(model), 11) == (
            match model.period_type {
                Some(held) => seq![ValueModel::Bytes(encoded::<ValueType>(held))],
                None => Seq::empty(),
            }
        ),
        payloads(Profile::fields_model(model), 12) == (
            if model.period == 0 { Seq::empty() } else {
                seq![
                    ValueModel::Varint(
                        (
                            (
                                if model.period < 0 {
                                    model.period + 0x1_0000_0000_0000_0000
                                } else { model.period as int }
                            ) as u64
                        ),
                    ),
                ]
            }
        ),
        payloads(Profile::fields_model(model), 13) == (
            if model.comment.len() == 0 { Seq::empty() } else {
                seq![
                    ValueModel::Bytes(
                        varints(
                            Seq::new(
                                model.comment.len(),
                                |i: int|
                                    (
                                        (
                                            if model.comment[i] < 0 {
                                                model.comment[i] + 0x1_0000_0000_0000_0000
                                            } else { model.comment[i] as int }
                                        ) as u64
                                    ),
                            ),
                        ),
                    ),
                ]
            }
        ),
        payloads(Profile::fields_model(model), 14) == (
            if model.default_sample_type == 0 { Seq::empty() } else {
                seq![
                    ValueModel::Varint(
                        (
                            (
                                if model.default_sample_type < 0 {
                                    model.default_sample_type + 0x1_0000_0000_0000_0000
                                } else { model.default_sample_type as int }
                            ) as u64
                        ),
                    ),
                ]
            }
        ),
        other == 0 || other > 14 ==> payloads(
            Profile::fields_model(model),
            other,
        ) == Seq::<ValueModel>::empty(),
{
    let p0 = messages_piece::<ValueType>(1, model.sample_type);
    lemma_payloads_uniform(p0, 1);
    let p1 = messages_piece::<Sample>(2, model.sample);
    lemma_payloads_uniform(p1, 2);
    let p2 = messages_piece::<Mapping>(3, model.mapping);
    lemma_payloads_uniform(p2, 3);
    let p3 = messages_piece::<Location>(4, model.location);
    lemma_payloads_uniform(p3, 4);
    let p4 = messages_piece::<Function>(5, model.function);
    lemma_payloads_uniform(p4, 5);
    let p5 = texts_piece(6, model.string_table);
    lemma_payloads_uniform(p5, 6);
    let p6 = number_piece(7, to_wire(model.drop_frames));
    lemma_payloads_uniform(p6, 7);
    let p7 = number_piece(8, to_wire(model.keep_frames));
    lemma_payloads_uniform(p7, 8);
    let p8 = number_piece(9, to_wire(model.time_nanos));
    lemma_payloads_uniform(p8, 9);
    let p9 = number_piece(10, to_wire(model.duration_nanos));
    lemma_payloads_uniform(p9, 10);
    let p10 = optional_message_piece::<ValueType>(11, model.period_type);
    lemma_payloads_uniform(p10, 11);
    let p11 = number_piece(12, to_wire(model.period));
    lemma_payloads_uniform(p11, 12);
    let p12 = packed_piece(13, signed_models(model.comment));
    lemma_payloads_uniform(p12, 13);
    let p13 = number_piece(14, to_wire(model.default_sample_type));
    lemma_payloads_uniform(p13, 14);
    let s1 = p0 + p1;
    lemma_payloads_concat(p0, p1);
    let s2 = s1 + p2;
    lemma_payloads_concat(s1, p2);
    let s3 = s2 + p3;
    lemma_payloads_concat(s2, p3);
    let s4 = s3 + p4;
    lemma_payloads_concat(s3, p4);
    let s5 = s4 + p5;
    lemma_payloads_concat(s4, p5);
    let s6 = s5 + p6;
    lemma_payloads_concat(s5, p6);
    let s7 = s6 + p7;
    lemma_payloads_concat(s6, p7);
    let s8 = s7 + p8;
    lemma_payloads_concat(s7, p8);
    let s9 = s8 + p9;
    lemma_payloads_concat(s8, p9);
    let s10 = s9 + p10;
    lemma_payloads_concat(s9, p10);
    let s11 = s10 + p11;
    lemma_payloads_concat(s10, p11);
    let s12 = s11 + p12;
    lemma_payloads_concat(s11, p12);
    let s13 = s12 + p13;
    lemma_payloads_concat(s12, p13);
    assert(Profile::fields_model(model) == s13);
    assert(
        Seq::new(
            model.comment.len(),
            |i: int|
                (
                    (
                        if model.comment[i] < 0 {
                            model.comment[i] + 0x1_0000_0000_0000_0000
                        } else { model.comment[i] as int }
                    ) as u64
                ),
        ) =~= signed_models(model.comment)
    );
    assert(
        payloads(Profile::fields_model(model), 1) =~= (
            Seq::new(
                model.sample_type.len(),
                |i: int| ValueModel::Bytes(encoded::<ValueType>(model.sample_type[i])),
            )
        )
    );
    assert(
        payloads(Profile::fields_model(model), 2) =~= (
            Seq::new(
                model.sample.len(),
                |i: int| ValueModel::Bytes(encoded::<Sample>(model.sample[i])),
            )
        )
    );
    assert(
        payloads(Profile::fields_model(model), 3) =~= (
            Seq::new(
                model.mapping.len(),
                |i: int| ValueModel::Bytes(encoded::<Mapping>(model.mapping[i])),
            )
        )
    );
    assert(
        payloads(Profile::fields_model(model), 4) =~= (
            Seq::new(
                model.location.len(),
                |i: int| ValueModel::Bytes(encoded::<Location>(model.location[i])),
            )
        )
    );
    assert(
        payloads(Profile::fields_model(model), 5) =~= (
            Seq::new(
                model.function.len(),
                |i: int| ValueModel::Bytes(encoded::<Function>(model.function[i])),
            )
        )
    );
    assert(
        payloads(Profile::fields_model(model), 6) =~= (
            Seq::new(
                model.string_table.len(),
                |i: int| ValueModel::Bytes(encode_utf8(model.string_table[i])),
            )
        )
    );
    assert(
        payloads(Profile::fields_model(model), 7) =~= (
            if model.drop_frames == 0 { Seq::empty() } else {
                seq![
                    ValueModel::Varint(
                        (
                            (
                                if model.drop_frames < 0 {
                                    model.drop_frames + 0x1_0000_0000_0000_0000
                                } else { model.drop_frames as int }
                            ) as u64
                        ),
                    ),
                ]
            }
        )
    );
    assert(
        payloads(Profile::fields_model(model), 8) =~= (
            if model.keep_frames == 0 { Seq::empty() } else {
                seq![
                    ValueModel::Varint(
                        (
                            (
                                if model.keep_frames < 0 {
                                    model.keep_frames + 0x1_0000_0000_0000_0000
                                } else { model.keep_frames as int }
                            ) as u64
                        ),
                    ),
                ]
            }
        )
    );
    assert(
        payloads(Profile::fields_model(model), 9) =~= (
            if model.time_nanos == 0 { Seq::empty() } else {
                seq![
                    ValueModel::Varint(
                        (
                            (
                                if model.time_nanos < 0 {
                                    model.time_nanos + 0x1_0000_0000_0000_0000
                                } else { model.time_nanos as int }
                            ) as u64
                        ),
                    ),
                ]
            }
        )
    );
    assert(
        payloads(Profile::fields_model(model), 10) =~= (
            if model.duration_nanos == 0 { Seq::empty() } else {
                seq![
                    ValueModel::Varint(
                        (
                            (
                                if model.duration_nanos < 0 {
                                    model.duration_nanos + 0x1_0000_0000_0000_0000
                                } else { model.duration_nanos as int }
                            ) as u64
                        ),
                    ),
                ]
            }
        )
    );
    assert(
        payloads(Profile::fields_model(model), 11) =~= (
            match model.period_type {
                Some(held) => seq![ValueModel::Bytes(encoded::<ValueType>(held))],
                None => Seq::empty(),
            }
        )
    );
    assert(
        payloads(Profile::fields_model(model), 12) =~= (
            if model.period == 0 { Seq::empty() } else {
                seq![
                    ValueModel::Varint(
                        (
                            (
                                if model.period < 0 {
                                    model.period + 0x1_0000_0000_0000_0000
                                } else { model.period as int }
                            ) as u64
                        ),
                    ),
                ]
            }
        )
    );
    assert(
        payloads(Profile::fields_model(model), 13) =~= (
            if model.comment.len() == 0 { Seq::empty() } else {
                seq![
                    ValueModel::Bytes(
                        varints(
                            Seq::new(
                                model.comment.len(),
                                |i: int|
                                    (
                                        (
                                            if model.comment[i] < 0 {
                                                model.comment[i] + 0x1_0000_0000_0000_0000
                                            } else { model.comment[i] as int }
                                        ) as u64
                                    ),
                            ),
                        ),
                    ),
                ]
            }
        )
    );
    assert(
        payloads(Profile::fields_model(model), 14) =~= (
            if model.default_sample_type == 0 { Seq::empty() } else {
                seq![
                    ValueModel::Varint(
                        (
                            (
                                if model.default_sample_type < 0 {
                                    model.default_sample_type + 0x1_0000_0000_0000_0000
                                } else { model.default_sample_type as int }
                            ) as u64
                        ),
                    ),
                ]
            }
        )
    );
    if other == 0 || other > 14 {
        assert(payloads(Profile::fields_model(model), other) =~= Seq::<ValueModel>::empty());
    }
}

/// What a `Profile` shows is what its members are.
pub proof fn profile_shows_its_members(message: Profile)
    ensures
        message.model().sample_type.len() == message.sample_type@.len(),
        forall|i: int| 0 <= i < message.sample_type@.len() ==> message.model().sample_type[i] == (
            #[trigger] message.sample_type@[i]
        ).model(),
        message.model().sample.len() == message.sample@.len(),
        forall|i: int| 0 <= i < message.sample@.len() ==> message.model().sample[i] == (
            #[trigger] message.sample@[i]
        ).model(),
        message.model().mapping.len() == message.mapping@.len(),
        forall|i: int| 0 <= i < message.mapping@.len() ==> message.model().mapping[i] == (
            #[trigger] message.mapping@[i]
        ).model(),
        message.model().location.len() == message.location@.len(),
        forall|i: int| 0 <= i < message.location@.len() ==> message.model().location[i] == (
            #[trigger] message.location@[i]
        ).model(),
        message.model().function.len() == message.function@.len(),
        forall|i: int| 0 <= i < message.function@.len() ==> message.model().function[i] == (
            #[trigger] message.function@[i]
        ).model(),
        message.model().string_table.len() == message.string_table@.len(),
        forall|i: int| 0 <= i < message.string_table@.len() ==> message.model().string_table[i] == (
            #[trigger] message.string_table@[i]
        )@,
        message.model().drop_frames == message.drop_frames,
        message.model().keep_frames == message.keep_frames,
        message.model().time_nanos == message.time_nanos,
        message.model().duration_nanos == message.duration_nanos,
        message.model().period_type == match message.period_type {
            Some(held) => Some(held.model()),
            None => None,
        },
        message.model().period == message.period,
        message.model().comment == message.comment@,
        message.model().default_sample_type == message.default_sample_type,
{
}

/// A field of a `ValueType` that is written in neither way is told by its name.
pub proof fn value_type_faults_name_their_field(wire: u8, bytes: Seq<u8>, budget: nat)
    requires
        wire != 0,
        wire != 2,
    ensures
        ValueType::field_fault(1, wire, bytes, budget) == misread(wire, 0, "ValueType.r#type"@),
        ValueType::field_fault(2, wire, bytes, budget) == misread(wire, 0, "ValueType.unit"@),
{
}

/// A field of a `Label` that is written in neither way is told by its name.
pub proof fn label_faults_name_their_field(wire: u8, bytes: Seq<u8>, budget: nat)
    requires
        wire != 0,
        wire != 2,
    ensures
        Label::field_fault(1, wire, bytes, budget) == misread(wire, 0, "Label.key"@),
        Label::field_fault(2, wire, bytes, budget) == misread(wire, 0, "Label.str"@),
        Label::field_fault(3, wire, bytes, budget) == misread(wire, 0, "Label.num"@),
        Label::field_fault(4, wire, bytes, budget) == misread(wire, 0, "Label.num_unit"@),
{
}

/// A field of a `Sample` that is written in neither way is told by its name.
pub proof fn sample_faults_name_their_field(wire: u8, bytes: Seq<u8>, budget: nat)
    requires
        wire != 0,
        wire != 2,
    ensures
        Sample::field_fault(1, wire, bytes, budget) == misread(wire, 0, "Sample.location_id"@),
        Sample::field_fault(2, wire, bytes, budget) == misread(wire, 0, "Sample.value"@),
        Sample::field_fault(3, wire, bytes, budget) == misread(wire, 2, "Sample.label"@),
{
}

/// A field of a `Mapping` that is written in neither way is told by its name.
pub proof fn mapping_faults_name_their_field(wire: u8, bytes: Seq<u8>, budget: nat)
    requires
        wire != 0,
        wire != 2,
    ensures
        Mapping::field_fault(1, wire, bytes, budget) == misread(wire, 0, "Mapping.id"@),
        Mapping::field_fault(2, wire, bytes, budget) == misread(wire, 0, "Mapping.memory_start"@),
        Mapping::field_fault(3, wire, bytes, budget) == misread(wire, 0, "Mapping.memory_limit"@),
        Mapping::field_fault(4, wire, bytes, budget) == misread(wire, 0, "Mapping.file_offset"@),
        Mapping::field_fault(5, wire, bytes, budget) == misread(wire, 0, "Mapping.filename"@),
        Mapping::field_fault(6, wire, bytes, budget) == misread(wire, 0, "Mapping.build_id"@),
        Mapping::field_fault(7, wire, bytes, budget) == misread(wire, 0, "Mapping.has_functions"@),
        Mapping::field_fault(8, wire, bytes, budget) == misread(wire, 0, "Mapping.has_filenames"@),
        Mapping::field_fault(9, wire, bytes, budget) == misread(wire, 0, "Mapping.has_line_numbers"@),
        Mapping::field_fault(10, wire, bytes, budget) == misread(wire, 0, "Mapping.has_inline_frames"@),
{
}

/// A field of a `Line` that is written in neither way is told by its name.
pub proof fn line_faults_name_their_field(wire: u8, bytes: Seq<u8>, budget: nat)
    requires
        wire != 0,
        wire != 2,
    ensures
        Line::field_fault(1, wire, bytes, budget) == misread(wire, 0, "Line.function_id"@),
        Line::field_fault(2, wire, bytes, budget) == misread(wire, 0, "Line.line"@),
{
}

/// A field of a `Location` that is written in neither way is told by its name.
pub proof fn location_faults_name_their_field(wire: u8, bytes: Seq<u8>, budget: nat)
    requires
        wire != 0,
        wire != 2,
    ensures
        Location::field_fault(1, wire, bytes, budget) == misread(wire, 0, "Location.id"@),
        Location::field_fault(2, wire, bytes, budget) == misread(wire, 0, "Location.mapping_id"@),
        Location::field_fault(3, wire, bytes, budget) == misread(wire, 0, "Location.address"@),
        Location::field_fault(4, wire, bytes, budget) == misread(wire, 2, "Location.line"@),
        Location::field_fault(5, wire, bytes, budget) == misread(wire, 0, "Location.is_folded"@),
{
}

/// A field of a `Function` that is written in neither way is told by its name.
pub proof fn function_faults_name_their_field(wire: u8, bytes: Seq<u8>, budget: nat)
    requires
        wire != 0,
        wire != 2,
    ensures
        Function::field_fault(1, wire, bytes, budget) == misread(wire, 0, "Function.id"@),
        Function::field_fault(2, wire, bytes, budget) == misread(wire, 0, "Function.name"@),
        Function::field_fault(3, wire, bytes, budget) == misread(wire, 0, "Function.system_name"@),
        Function::field_fault(4, wire, bytes, budget) == misread(wire, 0, "Function.filename"@),
        Function::field_fault(5, wire, bytes, budget) == misread(wire, 0, "Function.start_line"@),
{
}

/// A field of a `Profile` that is written in neither way is told by its name.
pub proof fn profile_faults_name_their_field(wire: u8, bytes: Seq<u8>, budget: nat)
    requires
        wire != 0,
        wire != 2,
    ensures
        Profile::field_fault(1, wire, bytes, budget) == misread(wire, 2, "Profile.sample_type"@),
        Profile::field_fault(2, wire, bytes, budget) == misread(wire, 2, "Profile.sample"@),
        Profile::field_fault(3, wire, bytes, budget) == misread(wire, 2, "Profile.mapping"@),
        Profile::field_fault(4, wire, bytes, budget) == misread(wire, 2, "Profile.location"@),
        Profile::field_fault(5, wire, bytes, budget) == misread(wire, 2, "Profile.function"@),
        Profile::field_fault(6, wire, bytes, budget) == misread(wire, 2, "Profile.string_table"@),
        Profile::field_fault(7, wire, bytes, budget) == misread(wire, 0, "Profile.drop_frames"@),
        Profile::field_fault(8, wire, bytes, budget) == misread(wire, 0, "Profile.keep_frames"@),
        Profile::field_fault(9, wire, bytes, budget) == misread(wire, 0, "Profile.time_nanos"@),
        Profile::field_fault(10, wire, bytes, budget) == misread(wire, 0, "Profile.duration_nanos"@),
        Profile::field_fault(11, wire, bytes, budget) == misread(wire, 2, "Profile.period_type"@),
        Profile::field_fault(12, wire, bytes, budget) == misread(wire, 0, "Profile.period"@),
        Profile::field_fault(13, wire, bytes, budget) == misread(wire, 0, "Profile.comment"@),
        Profile::field_fault(14, wire, bytes, budget) == misread(wire, 0, "Profile.default_sample_type"@),
{
}

/// A profile that was written is read back, every member of it as it was.
pub proof fn written_profiles_are_read_back(
    message: &Profile,
    bytes: Vec<u8>,
    sent: &[u8],
    read: Result<Profile, DecodeFault>,
)
    requires
        call_ensures(Profile::encode, (message,), bytes),
        call_ensures(Profile::decode, (sent,), read),
        sent@ == bytes@,
        bytes@.len() <= u64::MAX,
    ensures
        read is Ok,
        read->Ok_0.model() == message.model(),
{
    lemma_message_round_trip::<Profile>(message.model(), RECURSION_LIMIT as nat);
}

} // verus!
